//! The indented text form of relational expressions.

use crate::rel_expr::{
    extends_view, named_headings, Literal, LiteralView, Predicate, PredicateView, RelExpr, RelView,
    RestrictValue, RestrictValueView, ScalarBinOp, ScalarExpr, ScalarView,
};
use crate::text::{
    bool_text, bool_word, decimal, decimal_text, escaped, escaped_text, join_texts, joined,
    name_pairs_of, names_of, quoted, quoted_text, signed_decimal, signed_text, trim_end_text,
    trimmed_end, Name,
};
use crate::types::{attr_names, Heading, HeadingView, Type, TypeView};
use vstd::prelude::*;

verus! {

impl LiteralView {
    /// Text in quotes, numbers and truth values bare, a character as its code
    /// point, a rational as `n/d`.
    pub open spec fn text(self) -> Seq<char> {
        match self {
            LiteralView::Integer(n) => signed_decimal(n),
            LiteralView::Text(s) => quoted(s),
            LiteralView::Character(cp) => decimal(cp as nat),
            LiteralView::Approximate { notation, .. } => notation,
            LiteralView::Rational(n, d) => signed_decimal(n) + "/"@ + signed_decimal(d),
            LiteralView::Boolean(b) => bool_word(b),
        }
    }
}

impl RestrictValueView {
    /// A literal as itself, a local variable as `:name`, a cell as
    /// `:rel<slot>[<cell>]`.
    pub open spec fn text(self) -> Seq<char> {
        match self {
            RestrictValueView::Lit(lit) => lit.text(),
            RestrictValueView::Param(name) => ":"@ + name,
            RestrictValueView::SlotCell { slot, cell } => ":rel"@ + decimal(slot as nat) + "["@
                + decimal(cell as nat) + "]"@,
        }
    }
}

impl PredicateView {
    /// `<attr> <op> <value>`, or `when <value>`.
    pub open spec fn text(self) -> Seq<char> {
        match self {
            PredicateView::AttrCmp { attr, op, value } => attr + " "@ + op.symbol() + " "@
                + value.text(),
            PredicateView::Gate(value) => "when "@ + value.text(),
        }
    }
}

/// The operator's sign.
pub open spec fn scalar_symbol(op: ScalarBinOp) -> Seq<char> {
    match op {
        ScalarBinOp::Add => "+"@,
        ScalarBinOp::Sub => "-"@,
        ScalarBinOp::Mul => "*"@,
        ScalarBinOp::Div => "/"@,
        ScalarBinOp::Concat => "||"@,
    }
}

impl ScalarView {
    /// Every operation in parentheses, text and characters as literals.
    pub open spec fn text(self) -> Seq<char>
        decreases self,
    {
        match self {
            ScalarView::Attr(name) => name,
            ScalarView::Int(n) => signed_decimal(n),
            ScalarView::Str(s) => quoted(s),
            ScalarView::Char(cp) => "'"@ + escaped(cp) + "'"@,
            ScalarView::Bin { op, lhs, rhs } => "("@ + lhs.text() + " "@ + scalar_symbol(op) + " "@
                + rhs.text() + ")"@,
        }
    }
}

/// `old -> new` for each renaming.
pub open spec fn rename_texts(renames: Seq<(Name, Name)>) -> Seq<Seq<char>> {
    Seq::new(renames.len(), |i: int| renames[i].0 + " -> "@ + renames[i].1)
}

/// `name = expr` for each extension.
pub open spec fn extension_texts(extends: Seq<(Name, TypeView, ScalarView)>) -> Seq<Seq<char>> {
    Seq::new(extends.len(), |i: int| extends[i].0 + " = "@ + extends[i].2.text())
}

/// `new: { components }` for each gathering.
pub open spec fn gathering_texts(pairs: Seq<(Name, HeadingView)>) -> Seq<Seq<char>> {
    Seq::new(
        pairs.len(),
        |i: int| pairs[i].0 + ": { "@ + joined(attr_names(pairs[i].1), ", "@) + " }"@,
    )
}

impl RelView {
    /// The line for the root operator, without indentation.
    pub open spec fn head_line(self) -> Seq<char> {
        match self {
            RelView::RelvarRef { name, database, table_name, .. } => "RelvarRef "@ + name
                + " { db: "@ + database + ", table: "@ + table_name + " }"@,
            RelView::MaterializedRelvar { name, .. } => "MaterializedRelvar "@ + name,
            RelView::Restrict { pred, .. } => "Restrict { "@ + pred.text() + " }"@,
            RelView::Project { keep, .. } => "Project { keep: "@ + joined(keep, ", "@) + " }"@,
            RelView::Rename { renames, .. } => "Rename { "@ + joined(rename_texts(renames), ", "@)
                + " }"@,
            RelView::And { .. } => "And"@,
            RelView::Or { .. } => "Or"@,
            RelView::Minus { .. } => "Minus"@,
            RelView::Otherwise { .. } => "Otherwise"@,
            RelView::Semijoin { negated, .. } => if negated {
                "Antijoin"@
            } else {
                "Semijoin"@
            },
            RelView::TClose { .. } => "TClose"@,
            RelView::Extend { extends, .. } => "Extend { "@ + joined(
                extension_texts(extends),
                ", "@,
            ) + " }"@,
            RelView::Wrap { wraps, .. } => "Wrap { "@ + joined(gathering_texts(wraps), ", "@)
                + " }"@,
            RelView::Unwrap { names, .. } => "Unwrap { "@ + joined(names, ", "@) + " }"@,
            RelView::Group { groups, .. } => "Group { "@ + joined(gathering_texts(groups), ", "@)
                + " }"@,
            RelView::Ungroup { names, .. } => "Ungroup { "@ + joined(names, ", "@) + " }"@,
            RelView::RelParam { slot, heading } => "RelParam #"@ + decimal(slot as nat) + " { "@
                + joined(attr_names(heading), ", "@) + " }"@,
        }
    }

    /// One line for each operator, outermost first, the operands two spaces
    /// further in.
    pub open spec fn lines(self, pad: Seq<char>) -> Seq<char>
        decreases self,
    {
        let head = pad + self.head_line() + "\n"@;
        let inner = pad + "  "@;
        match self {
            RelView::Restrict { input, .. } => head + input.lines(inner),
            RelView::Project { input, .. } => head + input.lines(inner),
            RelView::Rename { input, .. } => head + input.lines(inner),
            RelView::Extend { input, .. } => head + input.lines(inner),
            RelView::TClose { input } => head + input.lines(inner),
            RelView::Wrap { input, .. } => head + input.lines(inner),
            RelView::Unwrap { input, .. } => head + input.lines(inner),
            RelView::Group { input, .. } => head + input.lines(inner),
            RelView::Ungroup { input, .. } => head + input.lines(inner),
            RelView::And { lhs, rhs } => head + lhs.lines(inner) + rhs.lines(inner),
            RelView::Or { lhs, rhs } => head + lhs.lines(inner) + rhs.lines(inner),
            RelView::Minus { lhs, rhs } => head + lhs.lines(inner) + rhs.lines(inner),
            RelView::Otherwise { primary, fallback } => head + primary.lines(inner)
                + fallback.lines(inner),
            RelView::Semijoin { lhs, rhs, .. } => head + lhs.lines(inner) + rhs.lines(inner),
            RelView::RelvarRef { .. } => head,
            RelView::MaterializedRelvar { .. } => head,
            RelView::RelParam { .. } => head,
        }
    }
}

/// The text of a literal.
pub fn render_literal(lit: &Literal) -> (s: String)
    ensures
        s@ == lit@.text(),
{
    match lit {
        Literal::Integer(n) => signed_text(*n),
        Literal::Text(s) => quoted_text(s.as_str()),
        Literal::Character(cp) => decimal_text(*cp as u64),
        Literal::Approximate(a) => a.notation.clone(),
        Literal::Rational(n, d) => {
            let mut s = signed_text(*n);
            s.append("/");
            s.append(signed_text(*d).as_str());
            s
        },
        Literal::Boolean(b) => bool_text(*b),
    }
}

/// The text of a restriction value.
pub fn render_value(value: &RestrictValue) -> (s: String)
    ensures
        s@ == value@.text(),
{
    match value {
        RestrictValue::Lit(lit) => render_literal(lit),
        RestrictValue::Param(name) => {
            let mut s = ":".to_owned();
            s.append(name.as_str());
            s
        },
        RestrictValue::SlotCell { slot, cell } => {
            let mut s = ":rel".to_owned();
            s.append(decimal_text(*slot as u64).as_str());
            s.append("[");
            s.append(decimal_text(*cell as u64).as_str());
            s.append("]");
            s
        },
    }
}

/// The text of a predicate.
pub fn render_predicate(pred: &Predicate) -> (s: String)
    ensures
        s@ == pred@.text(),
{
    match pred {
        Predicate::AttrCmp { attr, op, value } => {
            let mut s = attr.clone();
            s.append(" ");
            s.append(op.sql());
            s.append(" ");
            s.append(render_value(value).as_str());
            s
        },
        Predicate::Gate(value) => {
            let mut s = "when ".to_owned();
            s.append(render_value(value).as_str());
            s
        },
    }
}

/// The text of a scalar expression.
pub fn render_scalar(e: &ScalarExpr) -> (s: String)
    ensures
        s@ == e@.text(),
    decreases e,
{
    match e {
        ScalarExpr::Attr(name) => name.clone(),
        ScalarExpr::Int(n) => signed_text(*n),
        ScalarExpr::Str(s) => quoted_text(s.as_str()),
        ScalarExpr::Char(cp) => {
            let mut s = "'".to_owned();
            s.append(escaped_text(*cp).as_str());
            s.append("'");
            s
        },
        ScalarExpr::Bin { op, lhs, rhs } => {
            let sym = match op {
                ScalarBinOp::Add => "+",
                ScalarBinOp::Sub => "-",
                ScalarBinOp::Mul => "*",
                ScalarBinOp::Div => "/",
                ScalarBinOp::Concat => "||",
            };
            let mut s = "(".to_owned();
            s.append(render_scalar(lhs).as_str());
            s.append(" ");
            s.append(sym);
            s.append(" ");
            s.append(render_scalar(rhs).as_str());
            s.append(")");
            s
        },
    }
}

/// `<word> { <inner> }`.
fn braced(word: &str, inner: &str) -> (s: String)
    ensures
        s@ == word@ + inner@ + " }"@,
{
    let mut s = word.to_owned();
    s.append(inner);
    s.append(" }");
    s
}

fn render_renames(renames: &Vec<(String, String)>) -> (s: String)
    ensures
        s@ == joined(rename_texts(name_pairs_of(renames@)), ", "@),
{
    let mut parts: Vec<String> = Vec::new();
    let mut i: usize = 0;
    while i < renames.len()
        invariant
            i <= renames.len(),
            parts.len() == i,
            forall|j: int|
                0 <= j < i ==> (#[trigger] parts@[j])@ == rename_texts(name_pairs_of(renames@))[j],
        decreases renames.len() - i,
    {
        let mut s = renames[i].0.clone();
        s.append(" -> ");
        s.append(renames[i].1.as_str());
        parts.push(s);
        i += 1;
    }
    assert(names_of(parts@) =~= rename_texts(name_pairs_of(renames@)));
    join_texts(&parts, ", ")
}

fn render_extends(extends: &Vec<(String, Type, ScalarExpr)>) -> (s: String)
    ensures
        s@ == joined(extension_texts(extends_view(extends@)), ", "@),
{
    let mut parts: Vec<String> = Vec::new();
    let mut i: usize = 0;
    while i < extends.len()
        invariant
            i <= extends.len(),
            parts.len() == i,
            forall|j: int|
                0 <= j < i ==> (#[trigger] parts@[j])@ == extension_texts(
                    extends_view(extends@),
                )[j],
        decreases extends.len() - i,
    {
        let mut s = extends[i].0.clone();
        s.append(" = ");
        s.append(render_scalar(&extends[i].2).as_str());
        parts.push(s);
        i += 1;
    }
    assert(names_of(parts@) =~= extension_texts(extends_view(extends@)));
    join_texts(&parts, ", ")
}

fn render_gatherings(pairs: &Vec<(String, Heading)>) -> (s: String)
    ensures
        s@ == joined(gathering_texts(named_headings(pairs@)), ", "@),
{
    let mut parts: Vec<String> = Vec::new();
    let mut i: usize = 0;
    while i < pairs.len()
        invariant
            i <= pairs.len(),
            parts.len() == i,
            forall|j: int|
                0 <= j < i ==> (#[trigger] parts@[j])@ == gathering_texts(
                    named_headings(pairs@),
                )[j],
        decreases pairs.len() - i,
    {
        let mut s = pairs[i].0.clone();
        s.append(": { ");
        s.append(join_texts(&pairs[i].1.names(), ", ").as_str());
        s.append(" }");
        parts.push(s);
        i += 1;
    }
    assert(names_of(parts@) =~= gathering_texts(named_headings(pairs@)));
    join_texts(&parts, ", ")
}

impl RelExpr {
    /// The expression as an indented tree, one operator a line, outermost
    /// first, without a line end at the end.
    pub fn render(&self) -> (s: String)
        ensures
            s@ == trimmed_end(self@.lines(Seq::empty())),
    {
        let mut out = String::new();
        let pad = String::new();
        self.render_into(&mut out, pad.as_str());
        assert(out@ =~= self@.lines(Seq::empty()));
        trim_end_text(out.as_str())
    }

    /// The line for the root operator.
    fn render_head(&self) -> (s: String)
        ensures
            s@ == self@.head_line(),
    {
        match self {
            RelExpr::RelvarRef { name, database, table_name, .. } => {
                let mut s = "RelvarRef ".to_owned();
                s.append(name.as_str());
                s.append(" { db: ");
                s.append(database.as_str());
                s.append(", table: ");
                s.append(table_name.as_str());
                s.append(" }");
                s
            },
            RelExpr::MaterializedRelvar { name, .. } => {
                let mut s = "MaterializedRelvar ".to_owned();
                s.append(name.as_str());
                s
            },
            RelExpr::Restrict { pred, .. } => braced(
                "Restrict { ",
                render_predicate(pred).as_str(),
            ),
            RelExpr::Project { keep, .. } => braced(
                "Project { keep: ",
                join_texts(keep, ", ").as_str(),
            ),
            RelExpr::Rename { renames, .. } => braced(
                "Rename { ",
                render_renames(renames).as_str(),
            ),
            RelExpr::And { .. } => "And".to_owned(),
            RelExpr::Or { .. } => "Or".to_owned(),
            RelExpr::Minus { .. } => "Minus".to_owned(),
            RelExpr::Otherwise { .. } => "Otherwise".to_owned(),
            RelExpr::Semijoin { negated, .. } => if *negated {
                "Antijoin".to_owned()
            } else {
                "Semijoin".to_owned()
            },
            RelExpr::TClose { .. } => "TClose".to_owned(),
            RelExpr::Extend { extends, .. } => braced(
                "Extend { ",
                render_extends(extends).as_str(),
            ),
            RelExpr::Wrap { wraps, .. } => braced("Wrap { ", render_gatherings(wraps).as_str()),
            RelExpr::Unwrap { names, .. } => braced("Unwrap { ", join_texts(names, ", ").as_str()),
            RelExpr::Group { groups, .. } => braced("Group { ", render_gatherings(groups).as_str()),
            RelExpr::Ungroup { names, .. } => braced(
                "Ungroup { ",
                join_texts(names, ", ").as_str(),
            ),
            RelExpr::RelParam { slot, heading } => {
                let mut s = "RelParam #".to_owned();
                s.append(decimal_text(*slot as u64).as_str());
                s.append(" { ");
                s.append(join_texts(&heading.names(), ", ").as_str());
                s.append(" }");
                s
            },
        }
    }

    /// Appends the expression's lines, each behind `pad`.
    fn render_into(&self, out: &mut String, pad: &str)
        ensures
            final(out)@ == old(out)@ + self@.lines(pad@),
        decreases self,
    {
        let mut line = pad.to_owned();
        line.append(self.render_head().as_str());
        line.append("\n");
        out.append(line.as_str());
        let mut inner = pad.to_owned();
        inner.append("  ");
        match self {
            RelExpr::Restrict { input, .. } => input.render_into(out, inner.as_str()),
            RelExpr::Project { input, .. } => input.render_into(out, inner.as_str()),
            RelExpr::Rename { input, .. } => input.render_into(out, inner.as_str()),
            RelExpr::Extend { input, .. } => input.render_into(out, inner.as_str()),
            RelExpr::TClose { input } => input.render_into(out, inner.as_str()),
            RelExpr::Wrap { input, .. } => input.render_into(out, inner.as_str()),
            RelExpr::Unwrap { input, .. } => input.render_into(out, inner.as_str()),
            RelExpr::Group { input, .. } => input.render_into(out, inner.as_str()),
            RelExpr::Ungroup { input, .. } => input.render_into(out, inner.as_str()),
            RelExpr::And { lhs, rhs } => {
                lhs.render_into(out, inner.as_str());
                rhs.render_into(out, inner.as_str());
            },
            RelExpr::Or { lhs, rhs } => {
                lhs.render_into(out, inner.as_str());
                rhs.render_into(out, inner.as_str());
            },
            RelExpr::Minus { lhs, rhs } => {
                lhs.render_into(out, inner.as_str());
                rhs.render_into(out, inner.as_str());
            },
            RelExpr::Otherwise { primary, fallback } => {
                primary.render_into(out, inner.as_str());
                fallback.render_into(out, inner.as_str());
            },
            RelExpr::Semijoin { lhs, rhs, .. } => {
                lhs.render_into(out, inner.as_str());
                rhs.render_into(out, inner.as_str());
            },
            RelExpr::RelvarRef { .. } => {},
            RelExpr::MaterializedRelvar { .. } => {},
            RelExpr::RelParam { .. } => {},
        }
        assert(out@ =~= old(out)@ + self@.lines(pad@));
    }
}

} // verus!
