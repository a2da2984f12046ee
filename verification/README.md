# runtime

A runtime for dataflow models: a model names typed variables and the
operations that read and write them, each operation bound to the host or to a
CUDA device. The runtime stores the values of computed variables, marks an
operation ready once all its inputs are computed, hands ready operations to
worker threads over a channel, lets a load balancer choose among the available
operations by device, and reads the program's arguments into the model's
inputs and its outputs back out.

- `src/` is the verified library: the model (`model`), the runtime's
  bookkeeping and the steps the workers take (`scheduler`), the device-aware
  choice of the next operation (`load_balancer`), the encoding of arguments and
  decoding of outputs in the machine's byte order (`values`), and the laws that
  relate these steps (`laws`).
- `app/` is the C-facing part: the `extern "C"` entry points, the worker
  threads, the floating-point load balancer, and argument reading and output
  printing.
- `tests/` exercises the library.
