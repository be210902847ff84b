# warp

Compilers and a runner for the Warp UI languages, with the logic verified by Verus.

- `src/` is the verified library:
  - `warp3`, `emit`, `compile3`, `names`: the Warp 3 compiler — the `.w2u` UI language, the
    script sections and `config.ini`, rendered to HTML and JavaScript.
  - `syntax4`, `warp4`, `js4`, `page4`, `runtime4`: the Warp 4 example compiler — scripts
    compiled to operation lists and one self-contained page.
  - `script4`, `interp4`: the Warp 4 script language and its interpreter, which runs a
    program to a list of effects (print, wait) and asks for the few answers that need
    floating point.
  - `ui4`, `layout`: the Warp 4 layout renderer, from an element tree to HTML.
  - `text`: text helpers shared by all of them; `properties`: laws that span functions.
- `app/` holds the command-line tools: file and directory handling, XML reading, the
  floating-point parts (calc expressions, number formatting) and the effects of a script run.
- `tests/` runs the library on concrete inputs.
