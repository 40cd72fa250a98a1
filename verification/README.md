# WaitingForASignal

A bot that watches UK train departures and tells its users, by Telegram or SMS,
what changed on the boards that they subscribed to.

- `src/` is the library, verified with Verus: users and subscriptions
  (`domain`), the station list and its search (`stations`), departure boards and
  their simulator (`darwin`, `board`), the polling cycle (`poller`), the commands
  (`handlers`), the channels (`channel`, `notifier`, `markup`), user files
  (`storage`), `metrics`, `config`, and what they rest on (`text`, `table`,
  `sorting`, `clock`, `unicode`).
- `app/` is the program around it: configuration and user files on disk, HTTP,
  Telegram, Twilio, and the loops that take the steps the library asks for.
- `tests/` runs the library on concrete values.

Contracts speak of mathematical views: a text is a sequence of characters, a map
a sequence of pairs, and each type with texts or lists in it has a view of its
own. Public proof functions state what holds across functions.

What the library calls in other crates (dates and time zones, fuzzy scores, JSON,
ULIDs) stands behind functions marked `external_body`, each with a comment that
says what is taken for granted of the call.

`Cargo.toml` names `takecell` although nothing here calls it: teloxide depends on
it, and later versions than the pinned one need a newer compiler.
