# Magnum-TCP

A TCP/IPv4 stack in verified Rust: Ethernet, ARP, IPv4, TCP and a small HTTP application, from raw
frames to responses. What each function does is stated in its contract and proved with Verus; what
holds across calls is stated as public proof functions beside the code.

## The library

| Module | What it holds |
|---|---|
| `wire` | byte order, byte strings, the one's-complement sum |
| `text` | numbers as decimal text |
| `error` | why a frame, packet, segment or address is refused |
| `clock` | a monotonic clock in nanoseconds, and the wall clock |
| `ethernet`, `arp`, `ipv4` | frames, address resolution, packets |
| `tcp::header` | segments: flags, checksum, parser, builder |
| `tcp::tcb` | sequence numbers and the control block |
| `tcp::ring`, `tcp::send_buffer`, `tcp::recv_buffer` | the stream in both directions |
| `tcp::retransmit` | segments in flight, their round-trip times and their timeout |
| `tcp::transitions` | what a connection does, as mathematical functions |
| `tcp::connection` | the connection itself |
| `tcp::laws` | handshake, close, congestion control and reliable delivery |
| `tcp::task` | a connection's life as steps |
| `tcp` | demultiplexing: a whole endpoint, and a table for one task per connection |
| `inbound` | what a frame asks for, and frames around segments |
| `device` | names and framing of the kernel's devices |
| `pcap` | capture files |
| `chaos` | faults on purpose: drop, delay, reorder |
| `http` | the application |

## Reading the contracts

Types have a view, written `x@`: a connection is a `ConnView`, a receive buffer a `RecvView`, and so
on. A method's contract says which function of the view it computes. `process_segment`, for one,
computes `on_segment`, which is spelled out state by state in `tcp::transitions`.

Functions that look at a clock promise their result for some reading of it. Each has a twin whose
name ends in `_at`, which takes the reading as an argument and has an exact contract.

The streams are where the buffers come together. `send_buffer::sends` says which part of a byte
stream a send buffer holds, and `recv_buffer::receives` says the same of a receive buffer. The laws
show that segments carry the stream, that a receiver keeps it in order whatever arrives and in
whatever order, and that nothing that arrived is lost.

## The program

`app/` runs the stack on a TAP device (Linux) or a utun device (macOS): it reads frames, hands them
to the library, and performs what comes back.

```
magnum-tcp [--bind-ip IP] [--port PORT]... [--chaos RATE] [--chaos-reorder RATE] [--chaos-jitter-ms MS]
```

The application answers `GET /`, `GET /echo`, `GET /time` and `POST /`, gives 404 for other
requests, and echoes what is not HTTP.
