# iolink

Streams that are parameters of an IO-Link device, written in Verus: the
M-sequence and its checksum, the indexed service data unit, the flow control
that carries one across the channel two bytes at a time, a master's port, and a
device for the far end of an in-process line.

- `src/m_sequence.rs` — master and device messages, their checksum, their bytes
- `src/isdu.rs` — the indexed service data unit and its bytes
- `src/device.rs` — a device: page, process data, parameters, ISDU channel
- `src/transfer.rs` — one ISDU transfer as the master drives it, without a line
- `src/loopback.rs` — why a transfer with that device is the service it asks for
- `src/transport.rs` — the port: exchange, transfer, parameters, rounds
- `src/target.rs`, `src/text.rs` — origin URIs, targets and the numbers in them
- `src/error.rs` — what is refused, and the words for it
- `app/` — the port on a serial line

The contracts are stated over views (`MasterView`, `AnswerView`, `IsduView`,
`DeviceView`, `TransferView`, `PortView`). The proof functions named `law_…`
say what holds of the functions together: what is encoded decodes to what it
was, a turned bit is caught, a transfer is the service, what is written is read
back.
