# rockbuild

`rock` builds C and C++ projects described by JSON "rock files". A rock file
names its type (`Program`, `StaticLib`, `ShareLib` or `Object`), its sources,
the rock files it depends on, flags and tools; an `ENVS` member of the root
rock file sets the environment that every rock file starts from.

    rock build   rock.json    build every rock, dependencies first
    rock rebuild rock.json    the same, recompiling every source
    rock clean   rock.json    remove object and target files

## Layout

- `src/` is the library, verified with Verus. It holds the logic: the JSON
  model of rock files, `#{NAME}` and `@{RockGlob(..)}` settings, the option
  defaults, the start environment, the order in which rocks are visited, the
  compiler and linker command lines, the bounded pool of compilers and the
  files a clean removes. Work that touches the file system, the process
  environment or child processes is asked for by the library as plain values
  (`Prepare`, `Compile`, `Poll`, ...) and done by the program.
- `app/main.rs` is the `rock` program: it reads the files, resolves globs,
  runs commands and removes files as the library's steps ask.
- `tests/` runs the library on concrete rock files.
