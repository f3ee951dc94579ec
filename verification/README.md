# wireguard_install

An installer and manager for a WireGuard VPN server, with its core written in
Verus and proved against its contracts.

- `src/` is the verified library: IPv4 text and networks, the subnet and port
  rules, the parameters file and its reading, client names, addresses and
  configuration text, the client blocks of the server configuration, the
  multi-interface table, the migration of old installations, package and
  service command plans, and the decisions taken on command outcomes.
  `src/outside.rs` holds the calls into `ipnetwork`, `regex`, `qrcode` and
  `str::to_lowercase`, each with the contract that Verus takes as given.
- `tests/` runs the library on concrete values.
- `app/` is the program: prompts (`dialoguer`), files, commands, the
  interfaces file (`serde_json`), network interfaces (`netwatcher`),
  virtualization (`heim-virt`) and the main loop.

Among the properties proved: a subnet accepted for a new interface shares no
address with any existing interface or listed route; the parameters file
written at installation reads back as the same server parameters; a client
added to the server configuration is then listed, and revoking it gives the
configuration back (with only the later one added, when a second client
followed it); in a parameters file each name takes the value of its last
assignment, and a refused file is reported by its first missing or
unreadable parameter; the installation answers hold the first host of the
subnet entered; the interface table files each configuration under one
name, and a lookup gives back the last insertion.
