# un_lang

A small scripting language in the spirit of Lua and Lox, with its front end
and runtime support verified by Verus.

- `src/` is the verified library: the scanner (`scanner`), the parser
  (`parser`, building `expr` and `stmt` trees), the type checker for operator
  expressions (`typed_expr`), the resolver of local variables (`resolver`),
  the store of nested scopes (`enviroment`), the stages that load a file
  or a prompt line and look variables up at run time (`interpreter`), and the
  machine that runs statements (`exec`): it decides which statement runs
  next, opens a scope for each block, loops while a condition holds, and
  leaves on `break` or `return`, goes on with the next round on `continue`,
  asking its host for each expression's value; and the machine that evaluates expressions (`eval`): it decides
  which sub-expression is evaluated next and what comes of its value (the
  operand that decides `or` and `and`, the branch a conditional takes, where
  an assignment stores, which operands an operator accepts, whether a call
  gets as many arguments as its function takes). Every
  public function states its result in terms of the spec functions beside it;
  the `law_*` proof functions state properties that span several of them.
- `app/` is the `un` command: it reads a script or prompt lines and drives
  both machines. Numbers are `f64`, which the verified library does not hold,
  so the values live there, with what computes on them: literal values,
  arithmetic, comparisons, concatenation, truthiness, and the functions.
- `tests/` runs the library on concrete programs.

Syntax, as the parser reads it:

```
let x := 1 + 2 * 3;
fun add(a, b) return a + b; end
let inc := fn (n) n + 1;
if x < 10 then print(x); else print(add(x, 1 )); end
while x > 0 do x = x - 1; if x == 3 then continue; end print(x); end
for i in [ 0 .. < 10; 2 ] do print(i); end
begin let y := x; print(y); end;
```

A number must be followed by a blank, `;` or the end of its line. An exposed
function is called by its name after `@`, as in `@mod(a, b);`.
