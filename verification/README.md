# p2p_bench

A benchmark of gossip between two peers. A sender keeps a window of numbered data frames on
their way to a receiver; the receiver acknowledges each of them once; and the sender reports
how much arrived, and how long it took.

- `src/` is the library: frames, message identifiers, counting, round-trip times, the course
  of a run, addresses, setup, and reports. All of it is verified with Verus.
- `tests/` runs the library on concrete values.
- `app/` is the program: the terminal, the swarm, the clock, the file of results, and what is
  computed in floating point.

What the library takes on trust are the short functions marked `external_body`; each names the
function of libp2p or of the standard library that it calls, and says what it claims of it.

Of the dependencies, `libp2p-quic`, `libp2p-swarm` and `libp2p-tcp` are named only to switch on
their support for tokio.
