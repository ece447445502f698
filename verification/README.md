# mozart

Compose function variants: a function template with `variant!` placeholders and
sections of variants beside it give one generated function per combination of
variants.

- `src/` is the verified library. It decides, from plain values (placeholder
  names, delimiters and positions; section and variant names), which groups the
  placeholders name and with what kind (`mapping`), whether the sections are
  valid (`sections`), which combinations exist (`product`), what the generated
  functions and their module are called (`names`), and what every placeholder
  becomes in every generated function (`compose`, `expand`). `laws` holds the
  properties proved of the whole.
- `app/` is the macro around it: it reads the tokens with `syn`, calls the
  library, and writes the generated functions with `quote`.
