# slotbus

Request/response communication between processes on one machine through shared
memory. A hub writes requests into the slots of a control region, workers take
them and write responses back, and payloads that are too large for a slot's share
of the region go to overflow regions of their own.

The library is written in Verus: what each function does is stated in its
contract, and what the functions do together is stated and proved in laws.

## Layout

- `src/` is the verified library. It works on the bytes of a mapping; the
  operating system is reached through functions that the caller hands in.
  - `types`, `bytes`, `text`, `table`: the layout of a region and the pieces that
    everything else is made of.
  - `config`, `error`, `events`, `backing`: configuration and OS-level names,
    errors, deadlines, and the names of backing files.
  - `region`, `overflow`, `slots`, `codec`: control regions, overflow regions,
    and writing and reading the payloads of a slot.
  - `transport`, `worker`: the hub's and the worker's side of a bus.
  - `routes`, `hub`: route patterns, worker registration and request planning of
    an HTTP hub.
  - `laws`: what holds of several operations together, such as that a request
    that was written is read back, and that the slots do not disturb each other.
- `app/` is the program around it: mappings, named events, threads and the HTTP
  hub.
- `tests/` runs the library on concrete values.

## The region

    header (64 bytes) | slot records (128 bytes each) | inline heap

The heap is divided evenly among the slots. Each slot's share has a part for its
request and a part for its response; metadata stands at the start of a part and the
body behind it, aligned to eight bytes. A body that does not fit goes to an overflow
region, whose generation the slot records.

A slot goes round `Free -> Writing -> Ready -> Claimed -> Done -> Free`.

## What is trusted

Serialization of metadata (`postcard`), fresh ids (`uuid`), and two functions of
the standard library. Each stands behind a small item whose doc comment says what
is claimed of it. The functions that reach the operating system are parameters:
the contracts hold whatever they return, and ask that they can be called only on
what they are called with.
