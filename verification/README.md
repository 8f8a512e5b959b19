# tokio_stage

Self-healing task groups, mailboxes and supervision trees for tokio.

* A **group** keeps a set of tasks running: it starts them, replaces those that
  panic, can be upscaled, suspended, resumed and told to exit. It publishes its state,
  how many tasks run, how many have failed, and how many events it has seen to.
* A **mailbox** is a queue that survives its readers: a receive that is dropped with
  a message in its hands gives the message back, and the message takes its old place
  in the order of arrival. No message is lost or repeated. Readers that receive one
  at a time receive the messages in order; a reader that is slow to read what it was
  handed can be overtaken by another.
* A **supervisor** watches over groups and other supervisors and restarts them by
  one of three strategies.
* An **actor** answers the requests of a mailbox with a tower service.

## Layout

`src/` is the library. It holds every decision, with a contract that Verus proves:
which task is replaced, which child is signalled and in what order, where a message
goes, how long a shutdown may take. `src/trusted.rs` lists what is believed of
tokio, futures and the standard library. Properties that span several functions are
public proof functions named `law_*`; those on mailboxes and supervisors over time
stand in `src/mailbox_laws.rs` and `src/supervision_laws.rs`.

`app/` is the asynchronous face of the library. It spawns tasks, awaits channels and
timers, and hands what happened to the library, which says what comes next.

`tests/` holds tests of single decisions (`decisions.rs`) and of whole groups and
supervision trees on a running tokio runtime (`stage.rs`).
