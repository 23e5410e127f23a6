# canopen

Streams that are objects in a `CANopen` node's dictionary, written in Verus:
the SDO protocol, a master's transfers, and a node to speak to, each with a
contract that says what it does and a proof that it does.

- `src/sdo.rs`: the eight bytes of an SDO, both ways. Decoding undoes encoding.
- `src/frame.rs`, `src/error.rs`, `src/text.rs`: frames, what can go wrong, and
  how it is told.
- `src/node.rs`: a node on an in-process bus: its dictionary, NMT, SDO server
  and first receive PDO.
- `src/transfer.rs`: a master's download and upload as steps, for any bus.
- `src/target.rs`: the text form of a node and an object.
- `src/loopback.rs`: a master and a node together. What is written is what is
  read back.
- `src/master.rs`: `CanOpenTransport`, and the loopback.
- `app/`: the library on a real bus, behind the system's transport traits.
- `tests/`: what the library does on given values.
