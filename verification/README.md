# xmip-core-transport-snmp

SNMP transport: v2c and v3 noAuthNoPriv over UDP with a hand-rolled BER. Traps
and informs arrive as one Stream of bindings, a Send Location raises a trap or
sets an object.

## Layout

`src/` is the library, verified with Verus: what a message is on the wire, what
bytes are read as, what is sent for a target, what is done about a datagram.

- `ber` the values SNMP is made of, over `tlv`, `octets` and `hex`
- `lines` a Stream of bindings as `oid=value` lines, over `text`
- `pdu`, `v3`, `envelope` the messages of either version
- `target` where a send is going
- `transport` what is sent, and what is made of what arrives
- `loopback` both ends of one exchange
- `error`, `message` what is refused, and what a refusal says

`app/` holds the sockets. `tests/` runs the library.

The functions named `law_` state what relates the parts: what is written reads
back, an inform's acknowledgement is the answer its sender waits for, a payload
up to the ceiling goes in one datagram.
