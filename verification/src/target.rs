//! Where a Stream comes from and goes to. The origin URI names the port and
//! the parameter: `iolink://<port>/0x0100/0`. A target is the same, or a bare
//! `0x<index>/<sub>`, or nothing for the configured parameter. The port's name
//! may hold strokes of its own, so the parameter is the last two parts of what
//! follows.
use vstd::prelude::*;
use vstd::string::{StrSliceExecFns, StringExecFns};

use crate::text::{
    begins, chars_of, count_before, count_behind, parse, push_decimal, push_hex,
};

verus! {

/// The port that the origin URI of a line names: without its scheme, and
/// without its query.
pub open spec fn port_name(line: Seq<char>) -> Seq<char> {
    let rest = if crate::text::starts_with(line, "serial://"@) {
        line.skip("serial://"@.len() as int)
    } else {
        line
    };
    rest.take(crate::text::before(rest, '?') as int)
}

/// The origin URI of parameter `index:subindex` on `port`.
pub open spec fn origin_uri(port: Seq<char>, index: u16, subindex: u8) -> Seq<char> {
    "iolink://"@ + port + "/0x"@ + crate::text::hex(index as nat, 4) + "/"@ + crate::text::decimal(
        subindex as nat,
    )
}

/// What follows the first stroke after the scheme of `target`, where it has
/// that scheme and such a stroke.
pub open spec fn after_port(target: Seq<char>) -> Option<Seq<char>> {
    let rest = target.skip("iolink://"@.len() as int);
    let stroke = crate::text::before(rest, '/');
    if crate::text::starts_with(target, "iolink://"@) && stroke < rest.len() {
        Some(rest.skip(stroke as int + 1))
    } else {
        None
    }
}

/// The last two parts of `path`, which a stroke parts: the parameter, behind
/// whatever of the port's name stands before it. All of it where there are no
/// more than two.
pub open spec fn last_two(path: Seq<char>) -> Seq<char> {
    let last = crate::text::behind(path, '/');
    if last == path.len() {
        path
    } else {
        let front = path.take(path.len() - last - 1);
        path.skip(front.len() - crate::text::behind(front, '/'))
    }
}

/// The part of `target` that names the parameter, given what follows the port
/// in it, if it names one: nothing or the last two parts of that, or all of a
/// target without a port.
pub open spec fn path_in(target: Seq<char>, after: Option<Seq<char>>) -> Seq<char> {
    match after {
        Some(path) => last_two(path),
        None => target,
    }
}

/// The part of `target` that names the parameter.
pub open spec fn target_path(target: Seq<char>) -> Seq<char> {
    path_in(target, after_port(target))
}

/// The parameter that `path` names as `0x<index>/<sub>`, where it does.
pub open spec fn parameter_of(path: Seq<char>) -> Option<(u16, u8)> {
    let stroke = crate::text::before(path, '/') as int;
    let index = path.take(stroke);
    if stroke >= path.len() || !crate::text::starts_with(index, "0x"@) {
        None
    } else {
        match (
            crate::text::number_of(index.skip("0x"@.len() as int), 16, 0xffff),
            crate::text::number_of(path.skip(stroke + 1), 10, 0xff),
        ) {
            (Some(index), Some(subindex)) => Some((index as u16, subindex as u8)),
            _ => None,
        }
    }
}

/// The parameter that `path` names, or the configured one where it is empty.
pub open spec fn resolved(path: Seq<char>, configured: (u16, u8)) -> Option<(u16, u8)> {
    if path.len() == 0 {
        Some(configured)
    } else {
        parameter_of(path)
    }
}

/// The origin URI of parameter `index:subindex` on the port that `line` names.
pub(crate) fn origin_of(line: &str, index: u16, subindex: u8) -> (origin: String)
    ensures
        origin@ == origin_uri(port_name(line@), index, subindex),
{
    let scheme = chars_of("serial://");
    let chars = chars_of(line);
    let from: usize = if begins(&chars, &scheme) {
        scheme.len()
    } else {
        0
    };
    let rest = vstd::slice::slice_subrange(&chars, from, chars.len());
    proof {
        assert(rest@ =~= if from == 0 {
            line@
        } else {
            line@.skip(from as int)
        });
        assert(line@.skip(0) =~= line@);
    }
    let count = count_before(rest, '?');
    let port = line.substring_char(from, from + count);
    assert(port@ =~= port_name(line@));
    let mut origin = String::from_str("iolink://");
    origin.append(port);
    origin.append("/0x");
    push_hex(&mut origin, index, 4);
    origin.append("/");
    push_decimal(&mut origin, subindex as usize);
    origin
}

/// What follows the first stroke after the scheme of `target`, where it has
/// that scheme and such a stroke.
pub(crate) fn rest_of(target: &str) -> (rest: Option<&str>)
    ensures
        rest is Some <==> after_port(target@) is Some,
        rest matches Some(path) ==> after_port(target@) == Some(path@),
{
    let scheme = chars_of("iolink://");
    let chars = chars_of(target);
    if !begins(&chars, &scheme) {
        return None;
    }
    let rest = vstd::slice::slice_subrange(&chars, scheme.len(), chars.len());
    assert(rest@ =~= target@.skip(scheme@.len() as int));
    let stroke = count_before(rest, '/');
    if stroke == rest.len() {
        return None;
    }
    let path = target.substring_char(scheme.len() + stroke + 1, chars.len());
    assert(path@ =~= rest@.skip(stroke + 1));
    Some(path)
}

/// The parameter that `target` names, given what follows the port in it, or
/// the configured one.
pub(crate) fn resolve(target: &str, after: Option<&str>, configured: (u16, u8)) -> (named: Option<
    (u16, u8),
>)
    ensures
        named == resolved(
            path_in(
                target@,
                match after {
                    Some(path) => Some(path@),
                    None => None,
                },
            ),
            configured,
        ),
{
    match after {
        None => parameter(&chars_of(target), configured),
        Some(path) => {
            let chars = chars_of(path);
            let last = count_behind(&chars, '/');
            let from: usize = if last == chars.len() {
                0
            } else {
                let front = vstd::slice::slice_subrange(&chars, 0, chars.len() - last - 1);
                assert(front@ =~= path@.take(path@.len() - last - 1));
                front.len() - count_behind(front, '/')
            };
            let two = vstd::slice::slice_subrange(&chars, from, chars.len());
            assert(two@ =~= last_two(path@));
            parameter(two, configured)
        },
    }
}

/// The parameter that `path` names, or the configured one where it is empty.
fn parameter(path: &[char], configured: (u16, u8)) -> (named: Option<(u16, u8)>)
    ensures
        named == resolved(path@, configured),
{
    if path.len() == 0 {
        return Some(configured);
    }
    let stroke = count_before(path, '/');
    if stroke == path.len() {
        return None;
    }
    let hex_sign = chars_of("0x");
    let index = vstd::slice::slice_subrange(path, 0, stroke);
    assert(index@ =~= path@.take(stroke as int));
    if !begins(index, &hex_sign) {
        return None;
    }
    let digits = vstd::slice::slice_subrange(index, hex_sign.len(), index.len());
    assert(digits@ =~= index@.skip(hex_sign@.len() as int));
    let subindex = vstd::slice::slice_subrange(path, stroke + 1, path.len());
    assert(subindex@ =~= path@.skip(stroke + 1));
    match (parse(digits, 16, 0xffff), parse(subindex, 10, 0xff)) {
        (Some(index), Some(subindex)) => Some((index as u16, subindex as u8)),
        _ => None,
    }
}

/// What follows the port in an origin URI.
proof fn lemma_path_of_parameter(index: u16, subindex: u8)
    ensures
        parameter_of(
            "0x"@ + crate::text::hex(index as nat, 4) + "/"@ + crate::text::decimal(
                subindex as nat,
            ),
        ) == Some((index, subindex)),
{
    let hex = crate::text::hex(index as nat, 4);
    let decimal = crate::text::decimal(subindex as nat);
    let first = "0x"@ + hex;
    let path = "0x"@ + hex + "/"@ + decimal;
    reveal_strlit("0x");
    reveal_strlit("/");
    reveal_with_fuel(crate::text::hex_range, 5);
    crate::text::law_hex_reads_back(index as nat, 4);
    crate::text::law_decimal_reads_back(subindex as nat);
    assert(path =~= first.push('/') + decimal);
    assert forall|i: int| 0 <= i < first.len() implies first[i] != '/' by {
        if i >= 2 {
            assert(first[i] == hex[i - 2]);
        }
    }
    crate::text::lemma_before(first, '/', decimal);
    assert(path.take(first.len() as int) =~= first);
    assert(first.take(2) =~= "0x"@);
    assert(first.skip(2) =~= hex);
    assert(path.skip(first.len() as int + 1) =~= decimal);
    assert(hex[0] != '+');
    assert(decimal[0] != '+');
}

/// The last two parts of what ends in a parameter are that parameter.
proof fn lemma_last_two(front: Seq<char>, index: u16, subindex: u8)
    requires
        front.len() == 0 || front.last() == '/',
    ensures
        ({
            let path = "0x"@ + crate::text::hex(index as nat, 4) + "/"@ + crate::text::decimal(
                subindex as nat,
            );
            last_two(front + path) == path
        }),
{
    let hex = crate::text::hex(index as nat, 4);
    let decimal = crate::text::decimal(subindex as nat);
    let first = "0x"@ + hex;
    reveal_strlit("0x");
    reveal_strlit("/");
    reveal_with_fuel(crate::text::hex_range, 5);
    crate::text::law_hex_reads_back(index as nat, 4);
    crate::text::law_decimal_reads_back(subindex as nat);
    assert forall|i: int| 0 <= i < first.len() implies first[i] != '/' by {
        if i >= 2 {
            assert(first[i] == hex[i - 2]);
        }
    }
    assert forall|i: int| 0 <= i < decimal.len() implies decimal[i] != '/' by {}
    lemma_last_two_parts(front, first, decimal);
}

/// An origin URI is a target: it names the parameter that it is the origin
/// of, whatever the port's name.
pub proof fn law_origin_is_a_target(
    port: Seq<char>,
    index: u16,
    subindex: u8,
    configured: (u16, u8),
)
    ensures
        resolved(target_path(origin_uri(port, index, subindex)), configured) == Some(
            (index, subindex),
        ),
{
    let path = "0x"@ + crate::text::hex(index as nat, 4) + "/"@ + crate::text::decimal(
        subindex as nat,
    );
    let origin = origin_uri(port, index, subindex);
    let rest = origin.skip("iolink://"@.len() as int);
    let named = port.push('/');
    let stroke = crate::text::before(rest, '/') as int;
    let front = named.skip(stroke + 1);
    reveal_strlit("/0x");
    reveal_strlit("0x");
    reveal_strlit("/");
    assert(origin.take("iolink://"@.len() as int) =~= "iolink://"@);
    assert(rest =~= named + path);
    crate::text::lemma_before_is_first(rest, '/');
    assert(rest[port.len() as int] == '/');
    assert(stroke <= port.len());
    assert(rest.skip(stroke + 1) =~= front + path);
    lemma_last_two(front, index, subindex);
    lemma_path_of_parameter(index, subindex);
}

/// The port of a line: what stands between its scheme and its query, where
/// there are such.
pub proof fn law_port_of_a_line(name: Seq<char>, query: Seq<char>)
    requires
        !name.contains('?'),
    ensures
        port_name("serial://"@ + name) == name,
        port_name("serial://"@ + name + "?"@ + query) == name,
        !(name.len() >= 9 && name.take(9) == "serial://"@) ==> {
            &&& port_name(name) == name
            &&& port_name(name + "?"@ + query) == name
        },
{
    let scheme = "serial://"@;
    reveal_strlit("serial://");
    reveal_strlit("?");
    let one = scheme + name;
    let two = scheme + name + "?"@ + query;
    let three = name + "?"@ + query;
    assert(one.take(9) =~= scheme);
    assert(two.take(9) =~= scheme);
    assert(one.skip(9) =~= name);
    assert(two.skip(9) =~= name.push('?') + query);
    assert(three =~= name.push('?') + query);
    crate::text::lemma_before_is_first(name, '?');
    crate::text::lemma_before(name, '?', query);
    assert(name.take(name.len() as int) =~= name);
    assert((name.push('?') + query).take(name.len() as int) =~= name);
    if !(name.len() >= 9 && name.take(9) == scheme) && crate::text::starts_with(three, scheme) {
        if name.len() >= 9 {
            assert(three.take(9) =~= name.take(9));
        } else {
            assert(three[name.len() as int] == '?');
            assert(three.take(9)[name.len() as int] == '?');
        }
    }
}

/// What stands where in an origin URI: the scheme, the port, the index in four
/// hexadecimal digits and the subindex in decimal.
pub proof fn law_origin_layout(port: Seq<char>, index: u16, subindex: u8)
    ensures
        ({
            let origin = origin_uri(port, index, subindex);
            let at = 9 + port.len() as int;
            let digits = origin.subrange(at + 3, at + 7);
            let last = origin.skip(at + 8);
            &&& origin.len() > at + 8
            &&& origin.take(9) == "iolink://"@
            &&& origin.subrange(9, at) == port
            &&& origin[at] == '/'
            &&& origin[at + 1] == '0'
            &&& origin[at + 2] == 'x'
            &&& crate::text::digits_value(digits, 16) == Some(index as nat)
            &&& forall|i: int|
                0 <= i < 4 ==> '0' <= #[trigger] digits[i] <= '9' || 'a' <= digits[i] <= 'f'
            &&& origin[at + 7] == '/'
            &&& crate::text::digits_value(last, 10) == Some(subindex as nat)
            &&& last[0] == '0' ==> subindex == 0
            &&& subindex == 0 ==> last.len() == 1
        }),
{
    let origin = origin_uri(port, index, subindex);
    let at = 9 + port.len() as int;
    let hex = crate::text::hex(index as nat, 4);
    let decimal = crate::text::decimal(subindex as nat);
    reveal_strlit("iolink://");
    reveal_strlit("/0x");
    reveal_strlit("/");
    reveal_with_fuel(crate::text::hex_range, 5);
    crate::text::law_hex_reads_back(index as nat, 4);
    crate::text::law_hex_is_small(index as nat, 4);
    crate::text::law_decimal_reads_back(subindex as nat);
    crate::text::law_decimal_is_short(subindex as nat);
    assert(origin.take(9) =~= "iolink://"@);
    assert(origin.subrange(9, at) =~= port);
    assert(origin.subrange(at + 3, at + 7) =~= hex);
    assert(origin.skip(at + 8) =~= decimal);
}

/// What a path names: an index in hexadecimal after 0x, up to 0xffff, and after
/// the first stroke a subindex in decimal, up to 255, where both are numbers.
pub proof fn law_path_names(index: Seq<char>, subindex: Seq<char>, configured: (u16, u8))
    requires
        !index.contains('/'),
    ensures
        resolved("0x"@ + index + "/"@ + subindex, configured) == match (
            crate::text::number_of(index, 16, 65535),
            crate::text::number_of(subindex, 10, 255),
        ) {
            (Some(high), Some(low)) => Some((high as u16, low as u8)),
            _ => None,
        },
{
    let first = "0x"@ + index;
    let path = "0x"@ + index + "/"@ + subindex;
    reveal_strlit("0x");
    reveal_strlit("/");
    assert(path =~= first.push('/') + subindex);
    assert forall|i: int| 0 <= i < first.len() implies first[i] != '/' by {
        if i >= 2 {
            assert(index.contains(first[i]));
        }
    }
    crate::text::lemma_before(first, '/', subindex);
    assert(path.take(first.len() as int) =~= first);
    assert(first.take(2) =~= "0x"@);
    assert(first.skip(2) =~= index);
    assert(path.skip(first.len() as int + 1) =~= subindex);
}

/// What a path does not name: nothing is the configured parameter, and without
/// a stroke, or without 0x at its beginning, it names none.
pub proof fn law_path_does_not_name(path: Seq<char>, configured: (u16, u8))
    ensures
        path.len() == 0 ==> resolved(path, configured) == Some(configured),
        path.len() > 0 && !path.contains('/') ==> resolved(path, configured) is None,
        path.len() == 1 ==> resolved(path, configured) is None,
        path.len() > 1 && !(path[0] == '0' && path[1] == 'x') ==> resolved(path, configured)
            is None,
{
    reveal_strlit("0x");
    crate::text::lemma_before_is_first(path, '/');
    let index = path.take(crate::text::before(path, '/') as int);
    if crate::text::starts_with(index, "0x"@) {
        assert(index.take(2)[0] == '0');
        assert(index.take(2)[1] == 'x');
        assert(path[0] == index[0]);
        assert(path[1] == index[1]);
    }
}

/// What of a target names the parameter: all of it where it has no scheme;
/// after scheme and port, the last two parts of what follows, however many
/// strokes come before them; or what follows the only stroke.
pub proof fn law_target_names(front: Seq<char>, first: Seq<char>, second: Seq<char>)
    requires
        !first.contains('/'),
        !second.contains('/'),
    ensures
        !(front.len() >= 9 && front.take(9) == "iolink://"@) ==> target_path(front) == front,
        target_path("iolink://"@ + front + "/"@ + first + "/"@ + second) == first + "/"@ + second,
        target_path("iolink://"@ + first + "/"@ + second) == second,
{
    let scheme = "iolink://"@;
    let two = first + "/"@ + second;
    reveal_strlit("iolink://");
    reveal_strlit("/");
    let long = scheme + front + "/"@ + first + "/"@ + second;
    let rest = long.skip(9);
    let named = front.push('/');
    let stroke = crate::text::before(rest, '/') as int;
    let left = named.skip(stroke + 1);
    assert(long.take(9) =~= scheme);
    assert(rest =~= named + two);
    crate::text::lemma_before_is_first(rest, '/');
    assert(rest[front.len() as int] == '/');
    assert(stroke <= front.len());
    assert(rest.skip(stroke + 1) =~= left + two);
    lemma_last_two_parts(left, first, second);
    let short = scheme + first + "/"@ + second;
    assert(short.take(9) =~= scheme);
    assert(short.skip(9) =~= first.push('/') + second);
    crate::text::lemma_before(first, '/', second);
    assert((first.push('/') + second).skip(first.len() as int + 1) =~= second);
    crate::text::lemma_behind(seq![], '/', second);
}

/// What follows a port is all of the path where it has no more than two parts,
/// and its last two otherwise; and a target without a port is its own path.
pub proof fn law_path_after_a_port(
    target: Seq<char>,
    front: Seq<char>,
    first: Seq<char>,
    second: Seq<char>,
)
    requires
        !first.contains('/'),
        !second.contains('/'),
    ensures
        path_in(target, None) == target,
        path_in(target, Some(second)) == second,
        path_in(target, Some(first + "/"@ + second)) == first + "/"@ + second,
        path_in(target, Some(front + "/"@ + first + "/"@ + second)) == first + "/"@ + second,
{
    reveal_strlit("/");
    crate::text::lemma_behind(seq![], '/', second);
    lemma_last_two_parts(seq![], first, second);
    assert(seq![] + (first + "/"@ + second) =~= first + "/"@ + second);
    lemma_last_two_parts(front.push('/'), first, second);
    assert(front.push('/') + (first + "/"@ + second) =~= front + "/"@ + first + "/"@ + second);
}

proof fn lemma_last_two_parts(front: Seq<char>, first: Seq<char>, second: Seq<char>)
    requires
        front.len() == 0 || front.last() == '/',
        !first.contains('/'),
        !second.contains('/'),
    ensures
        last_two(front + (first + "/"@ + second)) == first + "/"@ + second,
{
    let path = first + "/"@ + second;
    let whole = front + path;
    reveal_strlit("/");
    assert(whole =~= (front + first).push('/') + second);
    crate::text::lemma_behind(front + first, '/', second);
    assert(whole.take(whole.len() - second.len() - 1) =~= front + first);
    if front.len() == 0 {
        assert(front + first =~= first);
        crate::text::lemma_behind(seq![], '/', first);
    } else {
        assert(front + first =~= front.drop_last().push('/') + first);
        crate::text::lemma_behind(front.drop_last(), '/', first);
    }
    assert(whole.skip(front.len() as int) =~= path);
}

} // verus!
