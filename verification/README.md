# Resource pool

A pool of memory blocks whose total size never exceeds a capacity. The pool hands memory out, takes
it back, keeps it for reuse, and queues the requests that it has no room for.

- A request gets the smallest kept block that can hold it, if the request fills that block up to the
  recycling threshold. Otherwise it gets a new block, if there is room for one. Otherwise it waits.
- A block that comes back goes to the largest waiting request that fits into it, the oldest if there
  are several of that size, provided that the request fills it up to the threshold. Otherwise the
  block is kept.
- Every request that waits has a place of its own in the queue until a block serves it.

## Layout

`src/` is the library, verified with Verus:

- `pool`: `ResourcePool` and its operations.
- `model`: the state of a pool as mathematics, when it is sound, and what each operation makes of it.
- `laws`: what holds of every pool, such as that it stays within its capacity, that memory is
  neither lost nor gained, and that taking back and handing out undo each other.
- `resource`: blocks, requests, responses and errors.
- `blocks`: memory from the system, and the hash maps that keep it by address.
- `ordered_map`: the sorted map that finds the smallest kept block that is large enough.
- `wait_queue`: the requests that wait, sorted by size and by arrival within a size.
- `binary32`: ratios of sizes in single precision, computed on integers. Thresholds are given as
  the encoding of a single: `0.8f32.to_bits()`.
- `weight`: sums over maps.
- `observability`: where a pool reports to.

`app/` is what surrounds the library: sharing a pool between threads, waiting for memory, reporting
to a server, and YAML and JSON.

## Use

```rust
let mut pool = ResourcePool::new(max_capacity);
let response = pool.allocate(1024)?;
match response.wait_until_filled() {
    WaitStep::Proceed => { /* the memory is at response.resource.ptr */ }
    WaitStep::Sleep => { /* a later reclaim gives the resource to fill the response with */ }
}
let resource_for_next = pool.reclaim(response.resource.ptr);
```
