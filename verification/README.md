# egui_states

State synchronization between a Python or Rust server and an egui client,
as a library verified with Verus.

- `src/` is the verified library. Each public function states in its
  contract what it returns and how it changes its arguments, over spec
  functions and views; the public proof functions state the laws that tie
  several calls together.
  - client side: `values`, `values_list`, `data`, `data_take`, `image`,
    `graphs`, `messages` (splitting frames from the server), `widgets`
    (the decisions of the wheel box);
  - server side: `server_states` (the registered states, the handshake and
    the listening loop's decisions), `server_values`, `server_collections`,
    `server_image`, `server_graphs`, `signals`, `socket_reader`;
  - bindings generation: `codegen` (state trees and their validation),
    `catalog`, `dict_order`, `render_values`, `render_python`, `render_rust`.
- `app/` holds what Verus does not check: file and network glue, the
  reading tasks, egui drawing and the floating-point widgets.
- `tests/` runs the library on concrete values.

Message headers are handed to the library already decoded, together with
their length, and the encoding of values is done by their typed owners; the
library cuts payloads out of frames and applies them.
