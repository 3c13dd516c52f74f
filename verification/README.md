# tisuos

The kernel logic of a small RISC-V teaching operating system, written in
Verus: each function states what it does in `requires` / `ensures`
contracts, and Verus proves the code against them.

## Layout

- `src/` — the verified library.
  - `memory/` — the page manager (first-fit runs of kernel and user
    pages), a bitmap block allocator for kernel objects, Sv39 page tables
    and the `satp` register, task heaps made of block pools, task stacks
    and program areas.
  - `task/` — processes and threads, the task pool and its scheduler,
    the task manager and the lifecycle of a task.
  - `virtio/` — virtio MMIO registers and split queues, the block device
    with its request buffers and disk cache, the GPU (frame buffer and
    control commands) and the input devices (keyboard and mouse events).
  - `rtc.rs`, `uart.rs`, `sync/` — the clock, the serial port's line
    buffer and the locks.
- `tests/` — tests of the library on concrete values.
- `app/` — the parts that touch hardware or printing: it reads the
  device registers and hands the library plain values.

Laws that span several functions (a freed block is handed out again, a
disk buffer reads back what was written, the `satp` value gives back its
root) stand in `src/` as public proof functions next to the code they
speak of.
