# hedwig

hedwig makes gpg-agent on a Windows workstation reachable from a remote host
over an SSH connection: it listens on one fixed loopback port and performs the
port-and-nonce handshake that a forwarded connection cannot perform itself.

The library (`src/`) holds the logic, with its contracts proved by Verus:

- `socketfile`: the agent's socket file (decimal port, line feed, 16-byte
  nonce) and the nonce, erased on drop;
- `cli`: the command line, over the encoded bytes of each argument;
- `autostart`: the arguments and command line of the autostart entry, and the
  proof that they parse back to the settings they came from;
- `relay`: the order in which a client is handled (client admitted, listener
  admitted, nonce sent, then relayed; any failure closes the client);
- `peer`: the connection-table lookup and the admission policy;
- `gpgconf`: the entries of `PATH`;
- `status`: the checks of the agent's answers;
- `registry`, `serve`, `decimal`: the smaller pieces.

The program (`app/`) performs the I/O: sockets, threads, files, the registry
and the process tokens through `windows-sys`.
