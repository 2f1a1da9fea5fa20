# blaster

A benchmark that sends the same packets over gRPC, QUIC and raw TCP at the same time, and
compares latency, throughput and which transport delivers first.

`src/` is the verified library:

- `wire`, `frame`, `connection`: the packet format, its framing on TCP, and a whole connection
- `endian`, `text`: little-endian numbers, numbers as text
- `metrics`, `serde_metrics`, `clock`: latency histograms, encode and decode timings, clocks
- `tracker`, `report`, `messages`: when packets arrived, and who came first
- `datagen`, `streams`, `client`: what is sent, and how it is spread over streams
- `orchestrator`, `summary`: the course of a run, and what is shown of it
- `tls`: certificate and transport settings of the QUIC endpoints

Each function states its behaviour in `requires` and `ensures`; proof functions named `law_*`
state what holds across functions. Functions marked `external_body` call other crates, and
their doc comments say what is taken from those crates without proof.

`app/` is the program around it: sockets, tasks, TLS objects and printing. It has two roles,
`blaster server` and `blaster client --target <ip>`.
