# attractors

A Clifford attractor renderer. `src/` is the verified core: the command line
(`cli`), palette names (`palette`), how the iteration budget is split and how
hits land in and merge into the density grid (`work`), the progress
reporter's decisions (`progress`), the text of iteration counts (`counts`,
which reproduces the binary64 division and two-decimal rounding on integers),
the PPM framing (`image`) and text helpers (`text`). `app/main.rs` holds the
program around it: the floating-point map and colours, the threads, the clock
and the files.
