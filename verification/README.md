# platano

A local coding agent around an Ollama chat model: the model converses with the
user and may call file tools (read, write, edit, list) that work inside a
project directory.

The decisions of the agent are a Verus-verified library (`src/`):

- `path`, `sandbox`: Unix path arithmetic on text and the confinement of a
  requested path to the project root. A resolved path lies under the canonical
  root; a path to be created that is a symbolic link is accepted only when the
  links it goes through all lead under the root.
- `replace`, `order`, `text`: finding and replacing text, lexicographic
  sorting, decimal rendering and truncation.
- `tools`: each file tool as a sequence of decisions; it asks its caller for
  file-system work (`fs`) and decides from the replies. Every path a tool
  stats, reads, lists or writes has been resolved under the canonical sandbox
  root, as the file system answered at the time it was asked; a change to the
  file system between that answer and the tool's work is not covered.
- `agent`: the conversation with the model, bounded by a number of rounds,
  and a compact rendering of tool calls for logs.
- `config`, `llm`: the deployment environment and the message types.

`app/` is the program around it: configuration, logging, the HTTP client for
Ollama, the async file-system work, and the loop that feeds the library's
decisions with what the model and the file system answer.
