# coddl

The middle of the Coddl compiler, verified with Verus.

`src/` is the library. It takes a type-checked program and makes procedural code
of it, leaves relational expressions over public relvars to the database where a
statement can be written for them, and folds catalogs into the tables that a
database has to hold. Every function states what it returns; the modules whose
names end in `laws`, and `lower/valid`, prove what holds of the library as a whole:

* the heading, the keys and the cardinality that are computed for a relational
  expression hold of what the expression evaluates to;
* gathering attributes and expanding them again gives the heading back;
* every module that lowering makes is well formed: what its code reads is a parameter
  or assigned, but for placeholders of type `Unit`; its `main` starts and ends the
  run-time library; without a plan it has no transactions;
* a relational expression is left to the database exactly when the cut gives a
  statement for it;
* the explained list has one entry for each query of the module;
* a deletion from a public relvar, an update of one and the replacement of its rows
  reach the database or are reported;
* seed rows are distinct, have unique keys and fit their columns, and a database
  is touched only when its whole catalog could be folded.

`app/` is what touches the outside: the loop that obtains SQL statements, the
environment and the database of a provisioning run, and `Display`.

`tests/` runs the library on source programs, expressions and catalogs.
