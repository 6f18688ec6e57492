# synac_client

The decisions of a terminal chat client, with contracts that Verus proves.

A line that the user types leads to a *step*: some effects in order (log a line, send a
packet, remember a name) and what the client waits for then. The library computes steps,
lays out the screen and seals messages; `app/` performs the effects on the terminal, the
database and the network.

- `commands`, `dialogue`, `steps`, `packets`: from lines and answers to steps
- `conduct`: what holds of every line
- `frontend`, `layout`: the log, completion and the rows of the screen
- `listing`, `permissions`, `address`, `typing`, `startup`: the texts in between
- `encrypter`, `keys`: sealed messages and key pairs, through OpenSSL
- `model`, `order`, `text`: what the rest is stated over
