# controlcenter

SSH tunnels, SSH logins, VPN clients and RDP sessions, brought up and down from one
screen. A connection declares what it needs — a VPN profile, a tunnel, or a tunnel
stacked on another tunnel — and activating it brings that whole chain up first.

- `src/` is the program without the machine, verified with Verus: configuration,
  plans, what is running, what every key does, what is drawn and what a report says.
  It performs nothing itself. Every operation on the state hands back what is to be
  done, and what became of it is handed in again.
- `app/` is the machine: the terminal, processes, sockets and files. It does what it
  is asked, in order, and reports back.
- `tests/` runs the library on concrete cases.

What holds of the program as a whole is stated by the functions whose names begin
with `law_`: that a plan brings up what is needed before what needs it, and each thing
once; that a refused conflict stops nothing; that the panic button leaves nothing
connected; that a stored password is on no command line; that a report is the same for
any other stored passwords and keys of the same lengths; that moving entries about
keeps every list in its shape.
