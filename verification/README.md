# marzban-node

The runtime of a Marzban node: it takes configurations from a controller,
chooses one proxy core for them, starts it, reports on it and streams its log.

The library under `src/` is written in Rust and verified with Verus. What the
node decides stands there with its contract, but for the bounds of the interval
of the log stream, a floating-point number, which stand in `app/`:

- `text`, `number`, `bytes`: text, decimal numbers and bytes.
- `json`, `json_text`: JSON values, and their texts through `serde_json`.
- `config`: settings out of environment variables.
- `xray_config`, `sing_box`: selection of inbounds and of the core, the Xray API
  that the node adds, and the translation of inbounds to sing-box.
- `runtime`: the core as a state machine, its version, its log.
- `sockets`: the listening sockets of the machine.
- `http`, `websocket`, `tls`: requests, responses, frames, certificates.
- `session`, `server`, `logs`: sessions and reports with diagnostics, the REST
  service, and the log stream.
- `error`: errors of the service.

The program under `app/` performs what the library asks for: sockets, TLS,
processes, clocks and files. Selections that need sing-box are AnyTLS and
Hysteria2; Hysteria2, VLESS, Shadowsocks and Trojan have a translation, and any
other inbound beside them is refused.
