# ortex

The part of a bridge between Elixir's Nx and ONNX Runtime that decides and computes, written
in Verus. The functions in `src/` carry contracts that are proved, except those marked
`external_body`: each wraps a call into another crate or the standard library, and its
contract is believed. Its doc comment says what is claimed of the call.

- `src/options.rs` reads session options; `src/session.rs` turns them into the steps that set
  up a session; `src/trace.rs` says where diagnostics go.
- `src/qnn.rs` selects QNN devices and assembles the options of the QNN execution provider;
  `src/providers.rs` chooses execution providers by name.
- `src/tensor.rs` holds tensors and moves them to and from binaries; `src/model.rs` describes
  models and prepares the inputs and outputs of a run; `src/io_type.rs` holds the types of
  inputs and outputs and shows them; `src/utils.rs` holds optimization levels and tells
  which inputs are boolean.
- `src/text.rs`, `src/numeral.rs` and `src/lists.rs` are the text and sequence primitives
  underneath.
- `app/` makes the calls into the BEAM, ONNX Runtime and the file system.

Functions named `law_*` are theorems about the library as a whole.
