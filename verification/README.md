# udp_broadcast_relay

Listens for UDP broadcasts and multicasts on the given ports and sends each one
out through the other interfaces, as though it came from its original sender.
Devices and game servers on separate local networks find each other that way.

- `src/` is the library, written in Verus: every decision of the relay, with a
  contract that is proved. `src/laws.rs` states what holds of the relay as a
  whole: the sender, the payload and the port are kept, a packet leaves through
  every interface but the one it came from, and through that one too only if it
  is redirected to one host, and a relay ignores its own packets. What holds of
  the search for interfaces and of setting up sockets stands in
  `src/discovery.rs` and `src/setup.rs`.
- `app/` is the program around it: the command line, the sockets, and the
  questions to the kernel.
- `tests/` runs the library.

What is taken on trust: five numbers of `libc` (`src/platform.rs`), the check for
UTF-8 in std (`src/ifname.rs`), and std's way to quote a string
(`src/relay_port.rs`).

## Usage

    udp_broadcast_relay --id ID --dev eth0 [--dev eth1...] \
        --relay PORT[:MCAST[,MCAST...]] [--relay ...] [-s IP] [-t IP] [-f] [-d]

- `--id`, 1 to 99, sets the time to live of outgoing packets, by which a relay
  knows its own. Relays on one network need different ids.
- `-s` sets the source of outgoing packets. 1.1.1.1 stands for the address of the
  outgoing interface with the relayed port, 1.1.1.2 for that address with the
  port of the sender.
- `-t` sets the target of outgoing packets. 255.255.255.255 stands for the
  broadcast address of the outgoing interface.
- `-f` runs the relay in the background.
