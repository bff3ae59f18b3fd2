# Island

Island runs a command under Landlock profiles: it finds the profiles that apply, resolves the
shared libraries of the command, enforces each profile's ruleset on itself, and becomes the
command.

`src/` is the verified library. It decides what is done next and says so; `app/` does it and
replies. What is proved there includes:

- no command is executed in a sandbox before every profile has been enforced, in order, and none
  without a sandbox unless no profile applies and that was asked for;
- any failure ends the run with that failure;
- every run ends;
- the directories to search for libraries only grow, and no command is analyzed more than four
  times;
- creating a profile writes nothing over an existing one.

`tests/` runs the library on given values; `app/` is the program around it.
