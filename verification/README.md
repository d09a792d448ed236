# aster_dual

A controller shows the monitors of the users who work on one machine and sends them mouse and
keyboard input. Each user runs a worker, which captures the monitors into shared memory and
performs the input that it receives.

- `src/` is the library, written in Verus: the frames in shared memory, the datagrams, the table
  of ports, the search for workers, the input on both sides, the session and the view.
- `app/` is the program around it: the window, the sockets, the server and the system calls.
- `tests/` runs the library on concrete values.

Places and sizes on the screen are floating-point numbers and are computed in `app/`.
