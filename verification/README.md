# async_std

Building blocks of an asynchronous I/O runtime, with the logic that decides what
happens on every poll written in Verus and proved against its contracts.

## Layout

- `src/` is the verified library. Each module holds the decisions of one part of
  the runtime as plain state machines over plain values:
  - `buf_read`: delimited reads, line reads, and streams of lines and of chunks
    out of a buffered reader (including an in-memory reader);
  - `buf_writer`: a writer that batches small writes in a buffer of fixed capacity;
  - `write`, `copy`: writing a whole buffer, and copying a reader into a writer;
  - `collect`: gathering a stream of fallible items (first failure wins), and sums;
  - `timeout`: bounding an operation by a deadline;
  - `stdio`: the standard streams, whose blocking operations run elsewhere;
  - `driver`: the readiness bookkeeping of the I/O reactor;
  - `net`: connecting to the first address that accepts, and retrying operations
    that would block;
  - `rt`, `monitor`: the executor's scheduling decisions, and the watcher that
    grows and shrinks its pool of workers;
  - `process`: killing a child process on drop, and waiting for its exit;
  - `path`: an owned path whose edits are done by the standard library.
- `app/` is the asynchronous surface around it: futures, streams, sockets over
  a `mio` reactor, the executor's threads and queues. It performs the I/O and asks
  the library what to do with each outcome.
- `tests/` exercises the library on concrete values.

Laws that relate several operations (for example, that removing a worker by the
id it was just given undoes its registration, or that a line never contains a
newline) are public proof functions next to the operations they speak of.
