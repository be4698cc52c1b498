# netblame

A small Linux tool for everyday network troubleshooting: name resolution, port checks,
TLS certificates, HTTP redirects and headers, ping and traceroute, whois, MAC addresses
and local subnet discovery, as a desktop app and as the command-line tool `netblame-cli`.

## Layout

- `src/` — the verified library (Verus). It decides everything that the checks report:
  - `text` — the character-level views of `split`, `split_whitespace`, `lines`, `trim`,
    `contains` and decimal numbers that the readers below are proved against;
  - `ipv4` — dotted addresses as text and numbers, private ranges, the host addresses of a
    subnet scan;
  - `dns`, `ports`, `ssl`, `ping`, `mac`, `scan`, `http`, `tools` — one module per check;
  - `cli` — the lines that the command-line tool prints.
- `app/` — the program around it: network, process and file work, the async runtime, the
  desktop commands and the command-line entry point.
- `tests/` — tests of the library on concrete values.
