# vault

An encrypted secret manager with shell environment injection. Secrets (API
tokens, passwords and the like) live in a `KEY=value` text that is encrypted
with [age](https://age-encryption.org) (X25519); `vault env` prints them for a
shell to evaluate.

Everything that the program decides or computes is a library that is verified
with [Verus](https://github.com/verus-lang/verus). What remains around it reads
arguments, touches files, prompts and runs programs.

## How it is put together

A command never touches the world itself. It is a `Task` that asks for one thing
at a time: whether a path is there, what a file holds, that a line be printed.
The program does what is asked for and resumes the task with what came of it.
What a command asks for, and how it goes on from each answer, is its `Plan`, and
the contract of every command says which plan it follows.

| Module | What it holds |
|--------|---------------|
| `text`, `format`, `secrets` | lines and white space, the text of a store, the ordered map of secrets |
| `shell` | names and quoting for a POSIX shell |
| `path`, `fault` | paths as bytes; failures with their causes |
| `crypto` | age identities, passphrases, encryption and decryption |
| `remote` | remotes, their validation, and the texts of the ssh calls |
| `plan` | plans, requests and replies |
| `store`, `command` | where a vault lies, its key file, and the plan of every command |
| `sync` | the plans for remotes: configuration, push and pull |
| `steps`, `sync_steps`, `reply`, `task` | the commands that follow the plans |
| `world` | a model of the world, and what a plan upholds in it |
| `law_read`, `law_write`, `law_key`, `law_edit`, `law_vault`, `law_sync` | what holds of the commands, whatever the world answers |

`app/` is the program; `tests/` runs the library in worlds that are made up.

## What is proved

Beyond the contract of each function, among other things:

- What was added is what is got, and the other secrets stay as they were; a value
  that the format cannot hold is refused.
- A store is always whole, even if a command is cut short at any point: it is
  the old one or a new one that the identity opens.
- No command changes a key that is there, and none opens the key or the store to
  others than their owner, if they were the owner's alone before; an editor has
  to leave these files alone for it.
- No plain text is left behind by `edit`, whatever the editor does and whichever
  way it ends, unless its removal fails.
- A shell reads each value back from what `env` prints, whatever the value.
- A key comes back from its backup as it was, unless the backup asks for more
  work than the machine is ready to do.
- The names of the remotes stay apart.
- What was pushed to a remote is what is pulled from it, and what a failed
  download printed is never taken for a store or a key.

These rest on what is believed of the age crate and of the standard library,
which stands at each function that is marked `external_body` and each
`assume_specification`, and on the program doing what it is asked to.
