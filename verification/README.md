# spk

The package keeper of SmechOS and SmechVisor. It fetches packages from repositories, installs
and removes them together with what they depend on, builds them from recipes, makes live images
of them, and sends them to other machines.

Everything that the package keeper decides is in `src/`, as a library that computes plain values
from plain values, and whose contracts Verus proves. `app/` is the program around it: it reads
files, runs the system's tools and talks to the network, and does nothing that the library has
not told it to do.

## How it is laid out

| Module | What it is about |
|---|---|
| `text`, `text_lemmas`, `std_text`, `number`, `fields`, `paths` | text, numbers, `key: value` lines and paths |
| `control`, `recipe` | what a package and its recipe say of themselves |
| `repo`, `local_repo`, `fetch` | which repositories there are, and which is asked next |
| `database`, `depends`, `remove` | the records of installed packages, and what follows from them |
| `install_model`, `install`, `install_laws`, `run_laws` | installing a package with its dependencies |
| `compile`, `image`, `upgrade`, `batch` | building packages and images, upgrading a system |
| `deploy`, `wire`, `send`, `receive`, `receive_laws` | sending packages to another machine |
| `packagekit`, `cli`, `commands`, `system` | requests, the command line, the system's tools |

What takes more than one step, with something to be done in between, is a machine: its state says
what is to be done next (`effect`), and is told what came of it (`advance`). Its contract is a
transition function on plain mathematical values; what holds of every run is proved of that
function.

What is believed without proof is in `std_text` (three conversions of the standard library) and
at the top of `text` (`String::push`).

## Laws

The public proof functions state what holds of the package keeper as a whole. Among them:

- what is written to a control file, a record, the configuration file or the wire reads back;
- a package is recorded only after its files were extracted, and those only after all its
  dependencies were found or installed;
- a cycle of dependencies is refused, and no two nested installations share a directory;
- a removal deletes no file that another package has, and is refused where another package
  depends on what would go;
- untrusted repositories are a last resort, for packages and for the index of packages, and
  every attempt at one says that it is untrusted;
- older names of commands ask for what the present ones do, and a file is installed only where
  the flag for that is given;
- no line of a recipe's scripts is taken for metadata;
- a tree of dependencies shows each package once, and comes to an end.
