# mununu_core

The decision-making core of a model-checking adapter, written in Verus with its rules
stated as contracts and proved.

- `src/` is the verified library:
  - `memory_budget`: the process memory ceiling (explicit value, auto ceiling from a
    detected container limit, cgroup file parsing, the RSS check).
  - `run_budget`: deadlines with a shared cancellation flag, child budgets that never
    outlive their parent, query-timeout clamping and budget variable parsing.
  - `expectations`: declared verdict expectations and the exact list of failures a
    report produces against them.
  - `bit_interaction`: the bit-level interaction graph of a BTOR2 model.
  - `partial_json`: the partial-verdict breadcrumb lines.
  - `engine_isolate`: reading the verdict of an isolated child engine.
  - `text`: the string rules the others share (trimming, integer parsing, lines).
- `app/` holds what touches the process: environment variables, cgroup files, the
  thread-local current budget, the breadcrumb file, spawning children, and the
  floating-point summaries of the interaction graph.
- `tests/` runs the library on concrete values.
