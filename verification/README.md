# turnip

`turnip` is an IP or Ethernet tunnel over a half-duplex serial line.
Each side of the line takes turns to transmit packets to the other side.

- `src/` is the verified library: packet lists, framing, synchronisation, and the decisions of the controller and the worker.
  It does no I/O.
- `app/` is the program around it: the command line, the serial port, the tunnel interface and the network namespaces.
- `tests/` runs the library on concrete values.

| Module       | What it holds                                                             |
|--------------|---------------------------------------------------------------------------|
| `packets`    | the packet list in the payload of a message                               |
| `cobs`       | byte stuffing with the `corncobs` crate                                   |
| `protocol`   | messages: finding them, receiving them and sending them bit by bit        |
| `line`       | what arrives at the other end of the line, whatever portions it comes in  |
| `buffer`     | packets from the tunnel interface in the wire format                      |
| `link`       | what the controller and the worker have in common                         |
| `controller` | the side that initiates all communication                                 |
| `worker`     | the side that only answers                                                |
| `turns`      | how the two sides take turns                                              |
| `error`      | failures and their descriptions                                           |
| `options`    | timeouts and size limits                                                  |
| `address`    | addresses of the tunnel interface                                         |
| `netns`      | network namespaces                                                        |
| `text`       | numbers in texts                                                          |

The maximum payload size is that of a message before it is encoded.
Neither side sends a payload that is larger,
and a receiver refuses every payload that is larger, and none of up to that size as too large.
