# transport-zigbee

A Stream over Zigbee: APS framing over the network layer. A Stream is one APS
data frame, or a fragmented transmission of numbered blocks that the receiver
acknowledges; a loopback radio stands in for the coordinator.

`src/` is the library, every function of it verified with Verus:

- `frame` - the frame, its bytes, and a Stream as frames
- `reassembly` - the receiving node's side: blocks back together
- `radio` - the radio as a trait, and the loopback radio
- `exchange` - what goes over the air, as relations over any radio
- `node` - one node on one radio: sending, taking, origins
- `loopback` - both ends on one radio, and one round over them
- `reception` - what holds of sending and receiving over any radio
- `target`, `text` - the node and endpoint a path names, numbers as text
- `error` - what is refused, and what is said of it

The promises of the library as a whole are the proof functions named `law_*`.

`app/` puts the library behind the `transport` traits, with radios and
counters that threads share. `tests/` runs the library.
