# headroom_effects

Core of the daemon's profile-mutation effects: which event a mutation
announces, whether it pushes DSP settings, and which PipeWire re-evaluations it
posts. The contracts in `src/` fix the plan of each mutation and the published
event. On the PipeWire channel they fix that every planned command is handed to
the channel once, in order, on the channel the state was given, and that what
went in is exactly the commands whose post succeeded. Whether a receiver is
still there when a command is handed over is not known in advance. The crate
also holds the stream table that frontends merge from a daemon snapshot.

`src/` is the proved library. `app/` pushes captured DSP settings to the filter,
forwards published events to subscribers, and logs command outcomes.
