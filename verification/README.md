# Union

Sharing one keyboard and mouse, the clipboard and files between machines on a local network.

`src/` is a library in Verus: the wire format and its frames, the handshake, the clipboard, the
server's state with its focus and routing, the transfer of files, the throttle for failed logins,
the configuration, and what the control panel shows. The functions there state what they do, and
Verus proves it; what is drawn at random is left open. What comes from other crates (hashes,
certificates, PNG, hexadecimal, TOML, the encoding of integers) is called through small functions
whose contracts say what is relied on.

`tests/` runs the library on concrete values. `app/` is the program around it: sockets, TLS, files,
devices and windows. It is installed under the names `union-server`, `union-client`, `union-gui`,
`union-overlay` and `union-send`.
