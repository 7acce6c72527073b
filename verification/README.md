# kernel_core

The logic of a small x86_64 hobby kernel, written in Verus and proved
against its contracts:

- `src/net`: Ethernet, ARP, IPv4, UDP and TCP formats and checksums, the TCP
  connection engine (a state machine over received segments, timer polls and
  user calls), the DHCP client's exchange, PCI device selection and the
  RTL8139 receive ring.
- `src/fs`: the in-memory file system, the ext2/3 on-disk records, and the
  ext3 operations over a block cache (an operation that needs a block not
  yet read stops and names it; the caller reads it and runs the operation
  again).
- `src/memory`: the frame bitmap, the first-fit free list, and the size-class
  heap allocator.
- `src/keyboard.rs`, `src/mouse.rs`, `src/serial.rs`, `src/ata.rs`,
  `src/rtc.rs`, `src/timer.rs`: the decisions of the device drivers, taking
  the values read from the hardware as arguments.
- `src/vga.rs`: the text console, its cursor and its 500-line scrollback.
- `src/scheduler.rs`: the round-robin task switch.
- `src/shell`: the command parser, calculator, history, line editor and text
  editor.

Laws that relate several operations (a file written reads back, blocks
handed out do not overlap, a ready task runs within a round, a TCP
handshake completes, a built segment parses back and its checksum
verifies, and others) are public proof functions next to the code they
speak of.

`app/` is the kernel around this library: boot, port I/O, interrupt entry
points, the disk and network transfers, and the shell's command loop. The
tests under `tests/` run the library on concrete values.
