# local_approvals

Approvals and permission grants that are given once and hold in every later
session on the same machine.

- `src/` is the library, verified with Verus. It decides what is kept, under
  which name and with which contents, and which request is answered from it.
  It reads and writes no files.
  - `local_actor_approvals`: approvals of what the bundled browser and
    computer-use plugins do. An approval is bound to the plugin, the connector,
    the tool and the arguments.
  - `persistent_permissions`: permission grants, bound to the execution
    environment, the working directory and the set of workspace roots.
  - `requirements`: which plugin a server comes from, and what the
    administrator demands.
  - `elicitation`: requests for input and their answers.
  - `json`, `serde_value`, `text`, `digest`, `storage`, `approval_meta`: JSON
    data and its canonical form, the texts that `serde_json` writes, the order
    of texts, digests, paths, and the vocabulary of the metadata.
- `app/` reads and writes the files and converts the types of the protocol.
- `tests/` runs the library on concrete values.

Proof functions whose names begin with `law_` state what holds of the library
as a whole.
