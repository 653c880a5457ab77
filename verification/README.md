# mail_laser

The server side of an SMTP conversation: a protocol handler that receives mail for forwarding.

- `src/` is the library, written and verified in Verus. It holds the states, the commands, the
  replies, the search for the mailbox in `MAIL FROM` and `RCPT TO`, and the form of lines on the
  wire. It performs no input or output. `src/laws/` states what holds of the protocol as a whole.
- `app/` joins a session to an asynchronous reader and writer.
- `tests/` runs the library.

A command takes two calls. `SmtpProtocol::process_command` works out what to send and what comes
then; `SmtpProtocol::finish_command` is told how sending went, and moves the session on if all
replies were sent.

Two functions from outside are taken on trust: `str::to_uppercase`, in `src/text.rs`, and
`mailparse::addrparse`, in `src/address.rs`. What is assumed of them stands at the functions that
call them.
