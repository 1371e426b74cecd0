# ipmsg

The logic of an IP Messenger client for a local network, verified with Verus, and the
program around it.

- `src/` is the library. Its functions state what they do in `requires` and `ensures`, and
  Verus proves it; only where the machine alone decides is there nothing to state.
  - `ipmsg_core/`: packets and their encodings, who is announced and answered, offers of
    files, requests for them, and the stream of a folder in both directions.
  - `app_state/`: users, messages and unread counts, and what each command changes.
  - `chat_shell/`: what the user interface shows and what it does about what the user does.
  - `config`, `logic`: settings, and what the actions of the user come to.
  - `net`, `addr_form`, `number`, `chars`, `addr_map`, `letter_case`, `machine`: addresses,
    numerals and texts, a small map, and what the machine says about itself.
- `tests/` runs the library.
- `app/` is the program: sockets, files, windows, and the texts in the language of the
  user. What it does with them the library decides.

Proof functions whose names begin with `law_` state what holds across several functions:
that packets, offers and folders are read back as they were written where the format can
carry their names, that nothing is received outside the folder it should
go to, that a file is served to the host it was offered to and to no other, that a
confirmation is not lost whenever it comes, and that the user interface shows what the
state holds.

What is taken on trust are the outside functions that the library calls: the codecs of
`encoding_rs`, `rand`, `get_if_addrs`, `hostname`, `whoami`, `sys_locale`, and three
functions of the standard library. The doc comment of each wrapper says what is claimed
of it.
