# a76xx

Logic of a driver for the SIMCom A76xx family of modems, written and proved in Verus.

- `src/` holds what the driver decides and computes. Each function states what it
  returns, and the public proof functions (`law_...`) state what holds across calls.
  - `bytes`: searching, trimming and reading numbers in bytes
  - `http_head`: finding a `+HTTPHEAD` message
  - `length_delimited`: reading bytes that follow their own length
  - `message`: what the modem sends
  - `command`: what the modem is sent
  - `power`: switching the modem on
  - `modem`: the steps to a data connection, and `course`: what holds of every way
    that they can take
  - `transport`: noticing a connection, and moving bytes between the serial line and
    its users
  - `bounded`, `error`: the types of `heapless` and `atat` that are used
- `app/` does what the steps ask for: it drives pins, runs the tasks of the serial
  line, and sends commands through an `atat` client.
- `tests/` runs the library.
