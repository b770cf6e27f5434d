# lan_mouse

Lan Mouse shares one mouse and one keyboard between several machines: the cursor
crosses the edge of one screen and goes on on the next, and the input follows it
over DTLS.

The library in `src/` is what the program decides and computes. It is written in
Verus: what a function does is stated in its `requires` and `ensures` clauses and
proved. Believed without proof is only what is stated of a few outside calls: the
full name of a service in `mdns_sd`, the key table of `keycode`, and of the
standard library `String::push`, `String::from_utf16_lossy`,
`std::str::from_utf8` and the `{:?}` of a string. Each stands behind an item that
says in its comment what is claimed.

| module        | contents |
|---------------|----------|
| `input`       | pointer and keyboard events |
| `proto`       | the wire format between two machines |
| `ipc`         | requests of frontends and events for them |
| `net`         | addresses, sets of addresses, and their text |
| `text`        | strings: trimming, numbers, quoting |
| `collections` | maps and sets on vectors |
| `client`      | the clients of this machine |
| `connect`     | when, where and how a client is dialed, and what comes back |
| `discovery`   | mDNS names, the advertised service, and what is learned of peers |
| `dns`         | what is told of names that could not be resolved |
| `capture`     | the session that captures input and sends it to a client |
| `emulation`   | the keys and buttons that a peer holds on this machine |
| `macos`       | the events that are posted on macOS |
| `actions`     | DDC/VCP actions and the choice of a monitor |
| `pairing`     | discovered peers and pairing with one |
| `cli`         | the command line interface of a running service |
| `service`     | the daemon: what it answers to everything that happens |
| `upkeep`      | what is done from time to time for clients that are not connected |
| `consistency` | what holds of the daemon in every state |

Floating point numbers are carried as their bits, times are nanoseconds, and a
function that has to send, wait or call the platform hands back what is to be
done.

`app/` is the program around it: sockets, the mDNS daemon, files, the command
line and the interfaces of the platforms. The IPC with the frontends, the
configuration file, the DNS resolver, the listener and the capture backends live
in crates of their own, and are the traits of `app/ports.rs`.

`tests/` runs the library.
