# mainnet_replay

Replays frozen mainnet transactions through a program runtime and measures how
long each takes. A fixture is a JSON file with the instructions of one
transaction, every account that they reference and the programs that they run.
A replay either succeeds or it does not; only the time spent processing the
message is measured.

The library under `src/` holds what is decided and computed on the way, verified
with Verus:

| module | what it does |
|---|---|
| `options` | reads the command line |
| `selection`, `order` | chooses the fixtures of a directory and puts them in order |
| `fixture` | a fixture as it is stored |
| `key`, `ids`, `encoding`, `text` | addresses, base64 data, text |
| `account`, `accounts`, `builtin` | the accounts that a fixture starts from |
| `instructions`, `instructions_sysvar` | the instructions and the sysvar that programs read them from |
| `sysvars` | the sysvars that programs read without an account |
| `features` | the features that the runtime runs with |
| `prepare`, `transaction` | a fixture made ready, and what each run executes |
| `execution`, `replay` | the course of a message and of a benchmark |
| `stats`, `report` | least, median and mean, and what is reported |

The program under `app/` reads and writes files, finds the programs' paths next
to the fixtures, turns JSON into fixtures, loads the programs, hands the
instructions of each message to the runtime and takes the time.

What outside crates do is stated in contracts that are not proved: those of the
functions marked `external_body` and of `SVMFeatureSet::all_enabled`. Each says
above it which function it speaks of.
