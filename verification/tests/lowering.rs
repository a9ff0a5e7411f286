//! Lowering of whole programs. The programs are written as source text, which
//! the reader below turns into syntax trees; the writer below answers for the
//! database.

use coddl::ast::{
    BinaryOp, Block, Callee, Expr, ExprKind, ForRange, Item, Literal, OperDecl, RelvarInfo,
    RelvarKind, Stmt, TemplateChunk, TypeRef,
};
use coddl::cut::{try_push, ParamSource, SqlQuery, Value};
use coddl::diag::{Diagnostic, Severity, Span};
use coddl::ir::{Const, Inst, Module, ProcType, ScalarOp, Terminator, ValueId};
use coddl::literals::parse_integer_literal;
use coddl::lower::program::{BackendKind, CheckedProgram, Plan, ResolvedRelvar};
use coddl::lower::state::{SqlRequest, Stop, WritePolicy};
use coddl::lower::{explain_with_plan, lower, lower_with_plan, LowerOutput, Lowered};
use coddl::rel_expr::{self, Predicate, RelExpr, RestrictValue, ScalarBinOp, ScalarExpr};
use coddl::types::{Heading, Type};

// ── reading source text ───────────────────────────────────────────────

#[derive(Clone, Debug, PartialEq)]
enum Token {
    Name(String),
    Number(String),
    Text(String),
    Char(String),
    Template(String),
    Sign(&'static str),
}

const SIGNS: [&str; 23] = [
    ":=", "->", "<>", "<=", ">=", "||", "{", "}", "[", "]", "(", ")", ":", ";", ",", ".", "=", "<",
    ">", "+", "-", "*", "/",
];

fn tokens(src: &str) -> Vec<(Token, Span)> {
    let mut out = Vec::new();
    let bytes = src.as_bytes();
    let mut at = 0;
    while at < bytes.len() {
        let c = bytes[at];
        if c.is_ascii_whitespace() {
            at += 1;
            continue;
        }
        let start = at;
        let token = if c == b'f' && bytes.get(at + 1) == Some(&b'"') {
            at = closing(bytes, at + 1, b'"');
            Token::Template(src[start + 2..at - 1].to_string())
        } else if c.is_ascii_alphabetic() || c == b'_' {
            while at < bytes.len() && (bytes[at].is_ascii_alphanumeric() || bytes[at] == b'_') {
                at += 1;
            }
            Token::Name(src[start..at].to_string())
        } else if c.is_ascii_digit() {
            while at < bytes.len() && (bytes[at].is_ascii_alphanumeric() || bytes[at] == b'_') {
                at += 1;
            }
            Token::Number(src[start..at].to_string())
        } else if c == b'"' {
            at = closing(bytes, at, b'"');
            Token::Text(src[start..at].to_string())
        } else if c == b'\'' {
            at = closing(bytes, at, b'\'');
            Token::Char(src[start..at].to_string())
        } else {
            let sign = SIGNS.iter().find(|s| src[at..].starts_with(**s));
            let sign = *sign.expect("a token");
            at += sign.len();
            Token::Sign(sign)
        };
        let span = Span {
            file: 0,
            start: start as u32,
            end: at as u32,
        };
        out.push((token, span));
    }
    out
}

/// The place behind the quote that closes the one at `at`.
fn closing(bytes: &[u8], at: usize, quote: u8) -> usize {
    let mut i = at + 1;
    while bytes[i] != quote {
        i += if bytes[i] == b'\\' { 2 } else { 1 };
    }
    i + 1
}

struct Reader {
    tokens: Vec<(Token, Span)>,
    at: usize,
    /// Names that calls may call.
    known: Vec<String>,
    diagnostics: Vec<Diagnostic>,
}

impl Reader {
    fn new(src: &str) -> Reader {
        let known = [
            "write_line",
            "read_line",
            "write_relation",
            "format",
            "to_text",
            "cardinality",
        ];
        Reader {
            tokens: tokens(src),
            at: 0,
            known: known.iter().map(|s| s.to_string()).collect(),
            diagnostics: vec![],
        }
    }

    fn peek(&self) -> Option<&Token> {
        self.tokens.get(self.at).map(|t| &t.0)
    }

    fn sign(&self, s: &str) -> bool {
        matches!(self.peek(), Some(Token::Sign(t)) if *t == s)
    }

    fn sign_after(&self, n: usize, s: &str) -> bool {
        matches!(self.tokens.get(self.at + n), Some((Token::Sign(t), _)) if *t == s)
    }

    fn word(&self, s: &str) -> bool {
        matches!(self.peek(), Some(Token::Name(t)) if t == s)
    }

    fn take(&mut self, s: &str) -> bool {
        let found = self.sign(s) || self.word(s);
        if found {
            self.at += 1;
        }
        found
    }

    fn expect(&mut self, s: &str) {
        assert!(self.take(s), "expected {s}, got {:?}", self.peek());
    }

    fn name(&mut self) -> String {
        match self.peek() {
            Some(Token::Name(n)) => {
                let n = n.clone();
                self.at += 1;
                n
            }
            other => panic!("expected a name, got {other:?}"),
        }
    }

    fn span_from(&self, start: usize) -> Span {
        Span {
            file: 0,
            start: self.tokens[start].1.start,
            end: self.tokens[self.at - 1].1.end,
        }
    }

    fn names(&mut self) -> Vec<String> {
        self.expect("{");
        let mut out = vec![];
        while !self.take("}") {
            out.push(self.name());
            self.take(",");
        }
        out
    }

    fn heading(&mut self) -> Heading {
        self.expect("{");
        let mut out = vec![];
        while !self.take("}") {
            let name = self.name();
            self.expect(":");
            out.push((name, self.typ()));
            self.take(",");
        }
        Heading::new(out)
    }

    fn typ(&mut self) -> Type {
        match self.name().as_str() {
            "Integer" => Type::Integer,
            "Text" => Type::Text,
            "Boolean" => Type::Boolean,
            "Relation" => Type::Relation(self.heading()),
            "Sequence" => Type::Sequence(Box::new(self.typ())),
            other => panic!("unknown type {other}"),
        }
    }

    fn type_ref(&mut self) -> TypeRef {
        let name = self.name();
        let element = if name == "Sequence" {
            Some(Box::new(self.type_ref()))
        } else {
            None
        };
        TypeRef {
            name: Some(name),
            element,
        }
    }

    fn program(mut self) -> CheckedProgram {
        let mut items = vec![];
        let mut relvars = vec![];
        while self.peek().is_some() {
            if self.take("program") {
                items.push(Item::Program { name: self.name() });
            } else if self.take("database") {
                self.name();
                items.push(Item::Declaration);
            } else if self.word("public") || self.word("private") {
                let kind = if self.name() == "public" {
                    RelvarKind::Public
                } else {
                    RelvarKind::Private
                };
                self.expect("relvar");
                let name = self.name();
                let heading = self.heading();
                self.expect("key");
                self.names();
                relvars.push(RelvarInfo {
                    name,
                    kind,
                    heading,
                });
                items.push(Item::Declaration);
            } else {
                self.expect("oper");
                items.push(Item::Oper(self.oper()));
            }
            self.expect(";");
        }
        CheckedProgram {
            items,
            diagnostics: self.diagnostics,
            relvars,
        }
    }

    fn oper(&mut self) -> OperDecl {
        let name = self.name();
        self.known.push(name.clone());
        self.expect("{");
        let mut params = vec![];
        while !self.take("}") {
            let param = self.name();
            self.expect(":");
            params.push((param, Some(self.type_ref())));
            self.take(",");
        }
        let return_type = if self.take("->") {
            Some(self.type_ref())
        } else {
            None
        };
        OperDecl {
            name,
            params,
            return_type,
            body: Some(self.block()),
        }
    }

    fn block(&mut self) -> Block {
        self.expect("[");
        let mut statements = vec![];
        let mut tail = None;
        while !self.take("]") {
            if let Some(s) = self.statement() {
                self.expect(";");
                statements.push(s);
                continue;
            }
            let e = self.expr();
            if self.take(":=") {
                let value = self.expr();
                self.expect(";");
                statements.push(Stmt::Assign { target: e, value });
            } else if self.take(";") {
                statements.push(Stmt::Expr(e));
            } else {
                tail = Some(Box::new(e));
            }
        }
        Block { statements, tail }
    }

    /// A statement that begins with a word of its own.
    fn statement(&mut self) -> Option<Stmt> {
        let start = self.at;
        if self.take("let") {
            let name = self.name();
            let annotation = if self.take(":") {
                Some(self.typ())
            } else {
                None
            };
            self.expect("=");
            let value = self.expr();
            return Some(Stmt::Let {
                name,
                annotation,
                value,
            });
        }
        if self.take("var") {
            let name = self.name();
            let value = if self.take(":=") {
                Some(self.expr())
            } else {
                None
            };
            return Some(Stmt::Var {
                name,
                annotation: None,
                value,
            });
        }
        if self.take("for") {
            let name = self.name();
            let over = if self.take(":=") {
                let low = self.expr();
                self.expect("to");
                ForRange::Counted {
                    low,
                    high: self.expr(),
                }
            } else {
                self.expect("in");
                ForRange::Elements(self.expr())
            };
            self.expect("do");
            let body = self.block();
            return Some(Stmt::For {
                span: self.span_from(start),
                name,
                over,
                body,
            });
        }
        if self.take("while") {
            let condition = self.expr();
            self.expect("do");
            let body = self.block();
            return Some(Stmt::While {
                span: self.span_from(start),
                condition,
                body,
            });
        }
        if self.take("do") {
            let body = self.block();
            self.expect("while");
            let condition = self.expr();
            return Some(Stmt::DoWhile {
                span: self.span_from(start),
                body,
                condition,
            });
        }
        if self.take("truncate") {
            return Some(Stmt::Truncate {
                operand: self.expr(),
            });
        }
        if self.take("delete") {
            return Some(Stmt::Delete {
                operand: self.expr(),
            });
        }
        if self.take("insert") {
            let target = self.name_ref();
            let start = self.at;
            let kind = ExprKind::RelationLit {
                tuples: self.tuple_set(),
            };
            let span = self.span_from(start);
            return Some(Stmt::Insert {
                target,
                source: Expr { span, kind },
            });
        }
        if self.take("update") {
            let start = self.at;
            let mut operand = self.name_ref();
            if self.take("where") {
                let rhs = Box::new(self.either());
                operand = Expr {
                    span: self.span_from(start),
                    kind: ExprKind::Binary {
                        op: BinaryOp::Where,
                        lhs: Box::new(operand),
                        rhs,
                    },
                };
            }
            let pairs = self.fields();
            return Some(Stmt::Update { operand, pairs });
        }
        if self.take("load") {
            let target = self.name();
            self.expect("from");
            let source = self.expr();
            self.expect("order");
            self.expect("[");
            let mut order = vec![];
            while !self.take("]") {
                let descending = self.name() == "desc";
                order.push((self.name(), descending));
                self.take(",");
            }
            return Some(Stmt::Load {
                target,
                source,
                order,
            });
        }
        None
    }

    fn name_ref(&mut self) -> Expr {
        let start = self.at;
        let kind = ExprKind::NameRef(self.name());
        Expr {
            span: self.span_from(start),
            kind,
        }
    }

    fn fields(&mut self) -> Vec<(String, Expr)> {
        self.expect("{");
        let mut out = vec![];
        while !self.take("}") {
            if self.sign_after(1, ":") {
                let name = self.name();
                self.expect(":");
                out.push((name, self.expr()));
            } else {
                let e = self.name_ref();
                let ExprKind::NameRef(name) = &e.kind else {
                    unreachable!()
                };
                out.push((name.clone(), e));
            }
            self.take(",");
        }
        out
    }

    fn tuple_set(&mut self) -> Vec<Vec<(String, Expr)>> {
        self.expect("{");
        let mut out = vec![];
        while !self.take("}") {
            out.push(self.fields());
            self.take(",");
        }
        out
    }

    fn expr(&mut self) -> Expr {
        let start = self.at;
        let mut e = self.either();
        loop {
            let kind = if self.take("where") {
                ExprKind::Binary {
                    op: BinaryOp::Where,
                    lhs: Box::new(e),
                    rhs: Box::new(self.either()),
                }
            } else if self.word("join")
                || self.word("times")
                || self.word("compose")
                || self.word("intersect")
                || self.word("union")
                || self.word("minus")
            {
                let op = match self.name().as_str() {
                    "join" => BinaryOp::Join,
                    "times" => BinaryOp::Times,
                    "compose" => BinaryOp::Compose,
                    "intersect" => BinaryOp::Intersect,
                    "union" => BinaryOp::Union,
                    _ => BinaryOp::Minus,
                };
                ExprKind::Binary {
                    op,
                    lhs: Box::new(e),
                    rhs: Box::new(self.either()),
                }
            } else if self.take("project") {
                let all_but = self.take("all");
                if all_but {
                    self.expect("but");
                }
                ExprKind::Project {
                    input: Box::new(e),
                    attrs: self.names(),
                    all_but,
                }
            } else if self.take("rename") {
                self.expect("{");
                let mut renames = vec![];
                while !self.take("}") {
                    let new = self.name();
                    self.expect(":");
                    renames.push((self.name(), new));
                    self.take(",");
                }
                ExprKind::Rename {
                    input: Box::new(e),
                    renames,
                }
            } else if self.take("extend") {
                ExprKind::Extend {
                    input: Box::new(e),
                    pairs: self.fields(),
                }
            } else if self.take("tclose") {
                ExprKind::Tclose {
                    input: Box::new(e),
                    attrs: vec![],
                }
            } else {
                return e;
            };
            e = Expr {
                span: self.span_from(start),
                kind,
            };
        }
    }

    fn either(&mut self) -> Expr {
        self.binary(0)
    }

    fn binary(&mut self, level: usize) -> Expr {
        let levels: [&[(&str, BinaryOp)]; 5] = [
            &[("or", BinaryOp::Or)],
            &[("and", BinaryOp::And)],
            &[
                ("=", BinaryOp::Eq),
                ("<>", BinaryOp::NotEq),
                ("<", BinaryOp::Lt),
                (">", BinaryOp::Gt),
                ("<=", BinaryOp::LtEq),
                (">=", BinaryOp::GtEq),
            ],
            &[
                ("+", BinaryOp::Add),
                ("-", BinaryOp::Sub),
                ("||", BinaryOp::Concat),
            ],
            &[("*", BinaryOp::Mul), ("/", BinaryOp::Div)],
        ];
        if level == levels.len() {
            return self.postfix();
        }
        let start = self.at;
        let mut e = self.binary(level + 1);
        loop {
            let mut found = None;
            for (sign, op) in levels[level] {
                if self.take(sign) {
                    found = Some(*op);
                    break;
                }
            }
            let Some(op) = found else {
                return e;
            };
            let rhs = self.binary(level + 1);
            e = Expr {
                span: self.span_from(start),
                kind: ExprKind::Binary {
                    op,
                    lhs: Box::new(e),
                    rhs: Box::new(rhs),
                },
            };
        }
    }

    fn postfix(&mut self) -> Expr {
        let start = self.at;
        let mut e = self.primary();
        loop {
            let kind = if self.take(".") {
                let field = self.name();
                if self.sign("{") {
                    let callee = Callee::Method {
                        receiver: Box::new(e),
                        method: field,
                    };
                    ExprKind::Call {
                        callee,
                        args: self.fields(),
                    }
                } else {
                    ExprKind::FieldAccess {
                        base: Box::new(e),
                        field,
                    }
                }
            } else if self.take("[") {
                let index = Box::new(self.expr());
                self.expect("]");
                ExprKind::Index {
                    sequence: Box::new(e),
                    index,
                }
            } else {
                return e;
            };
            e = Expr {
                span: self.span_from(start),
                kind,
            };
        }
    }

    fn primary(&mut self) -> Expr {
        let start = self.at;
        if self.take("(") {
            let e = self.expr();
            self.expect(")");
            return e;
        }
        let kind = if self.sign("{") {
            ExprKind::TupleLit {
                fields: self.fields(),
            }
        } else if self.take("true") {
            ExprKind::BoolLit(true)
        } else if self.take("false") {
            ExprKind::BoolLit(false)
        } else if self.take("transaction") {
            ExprKind::Transaction { body: self.block() }
        } else if self.take("extract") {
            ExprKind::Extract {
                operand: Box::new(self.postfix()),
            }
        } else if self.take("Relation") {
            ExprKind::RelationLit {
                tuples: self.tuple_set(),
            }
        } else if self.take("Sequence") {
            self.expect("[");
            let mut elements = vec![];
            while !self.take("]") {
                elements.push(self.expr());
                self.take(",");
            }
            ExprKind::SequenceLit { elements }
        } else if self.take("if") {
            let condition = Box::new(self.expr());
            self.expect("then");
            let then_body = self.block();
            let else_body = if self.take("else") {
                Some(self.block())
            } else {
                None
            };
            ExprKind::If {
                condition,
                then_body,
                else_body,
            }
        } else {
            let (token, span) = self.tokens[self.at].clone();
            self.at += 1;
            match token {
                Token::Number(n) => ExprKind::Literal(Literal::Integer(n)),
                Token::Text(s) => ExprKind::Literal(Literal::Str(s)),
                Token::Char(s) => ExprKind::Literal(Literal::Char(s)),
                Token::Template(s) => ExprKind::Literal(Literal::Format(chunks(&s))),
                Token::Name(name) if self.sign("{") => {
                    if !self.known.contains(&name) {
                        let message = format!("unknown operator `{name}`");
                        self.diagnostics
                            .push(Diagnostic::error(span, "T0001", message));
                    }
                    ExprKind::Call {
                        callee: Callee::Name(name),
                        args: self.fields(),
                    }
                }
                Token::Name(name) => ExprKind::NameRef(name),
                Token::Sign(s) => panic!("unexpected {s}"),
            }
        };
        Expr {
            span: self.span_from(start),
            kind,
        }
    }
}

fn chunks(s: &str) -> Vec<TemplateChunk> {
    let mut out = vec![];
    for (i, piece) in s.split('{').enumerate() {
        let mut literal = piece;
        if i > 0 {
            let (name, rest) = piece.split_once('}').expect("a closed placeholder");
            out.push(TemplateChunk::Placeholder(name.to_string()));
            literal = rest;
        }
        if !literal.is_empty() {
            out.push(TemplateChunk::Literal(literal.as_bytes().to_vec()));
        }
    }
    out
}

// ── writing statements ────────────────────────────────────────────────

/// A `SELECT` while it is put together.
struct Select {
    /// What each attribute is computed from.
    columns: Vec<(String, String)>,
    table: String,
    tests: Vec<String>,
    params: Vec<ParamSource>,
}

fn scalar(e: &ScalarExpr, columns: &[(String, String)]) -> String {
    match e {
        ScalarExpr::Attr(a) => columns.iter().find(|c| c.0 == *a).unwrap().1.clone(),
        ScalarExpr::Int(n) => n.to_string(),
        ScalarExpr::Bin { op, lhs, rhs } => {
            let sign = match op {
                ScalarBinOp::Add => "+",
                ScalarBinOp::Sub => "-",
                ScalarBinOp::Mul => "*",
                ScalarBinOp::Div => "/",
                ScalarBinOp::Concat => "||",
            };
            format!(
                "({} {sign} {})",
                scalar(lhs, columns),
                scalar(rhs, columns)
            )
        }
        other => panic!("no statement for {other:?}"),
    }
}

fn select(e: &RelExpr) -> Option<Select> {
    match e {
        RelExpr::RelvarRef {
            table_name,
            columns,
            ..
        } => Some(Select {
            columns: columns
                .iter()
                .map(|(a, c)| (a.clone(), format!("\"{c}\"")))
                .collect(),
            table: table_name.clone(),
            tests: vec![],
            params: vec![],
        }),
        RelExpr::Restrict { input, pred } => {
            let mut s = select(input)?;
            let Predicate::AttrCmp { attr, op, value } = pred else {
                return None;
            };
            let RestrictValue::Lit(lit) = value else {
                return None;
            };
            s.params.push(ParamSource::Value(match lit {
                rel_expr::Literal::Integer(n) => Value::Integer(*n),
                rel_expr::Literal::Text(t) => Value::Text(t.clone()),
                rel_expr::Literal::Boolean(b) => Value::Boolean(*b),
                _ => return None,
            }));
            let column = s.columns.iter().find(|c| c.0 == *attr)?.1.clone();
            s.tests.push(format!("{column} {} ?", op.sql()));
            Some(s)
        }
        RelExpr::Project { input, keep } => {
            let mut s = select(input)?;
            s.columns.retain(|c| keep.contains(&c.0));
            Some(s)
        }
        RelExpr::Rename { input, renames } => {
            let mut s = select(input)?;
            for c in &mut s.columns {
                if let Some((_, new)) = renames.iter().find(|r| r.0 == c.0) {
                    c.0 = new.clone();
                }
            }
            s.columns.sort();
            Some(s)
        }
        RelExpr::Extend { input, extends } => {
            let mut s = select(input)?;
            for (name, _, e) in extends {
                let text = scalar(e, &s.columns);
                s.columns.push((name.clone(), text));
            }
            s.columns.sort();
            Some(s)
        }
        _ => None,
    }
}

fn key_of(text: &str) -> u64 {
    text.bytes()
        .fold(7, |k, b| k.wrapping_mul(31).wrapping_add(b as u64))
}

fn query(text: String, params: Vec<ParamSource>, result_heading: Heading) -> SqlQuery {
    SqlQuery {
        plan_key: key_of(&text),
        text,
        param_count: params.len() as u32,
        params,
        rel_params: vec![],
        gate_params: vec![],
        result_heading,
    }
}

fn answer(request: &SqlRequest) -> Option<SqlQuery> {
    match request {
        SqlRequest::Select(e) => {
            let s = select(e)?;
            let list: Vec<String> = s
                .columns
                .iter()
                .map(|(a, c)| {
                    if *c == format!("\"{a}\"") {
                        c.clone()
                    } else {
                        format!("{c} AS \"{a}\"")
                    }
                })
                .collect();
            let distinct = if e.needs_distinct() { "DISTINCT " } else { "" };
            let mut text = format!("SELECT {distinct}{} FROM \"{}\"", list.join(", "), s.table);
            if !s.tests.is_empty() {
                text.push_str(" WHERE ");
                text.push_str(&s.tests.join(" AND "));
            }
            Some(query(text, s.params, e.heading()))
        }
        SqlRequest::Assign { target, .. } => {
            Some(query("WRITE".to_string(), vec![], target.heading()))
        }
        SqlRequest::InsertTemplate { target } => {
            Some(query("INSERT".to_string(), vec![], target.heading()))
        }
        SqlRequest::ReplaceInsert { target, .. } => {
            Some(query("REPLACE".to_string(), vec![], target.heading()))
        }
        SqlRequest::Truncate { target } => {
            Some(query("DELETE".to_string(), vec![], target.heading()))
        }
    }
}

// ── running ───────────────────────────────────────────────────────────

/// Lowers until no statement is missing.
fn run(step: impl Fn(Vec<Option<SqlQuery>>) -> Lowered) -> LowerOutput {
    let mut requests: Vec<SqlRequest> = vec![];
    loop {
        match step(requests.iter().map(answer).collect()) {
            Lowered::Done(out) => return out,
            Lowered::Stopped(Stop::Ask(request)) => requests.push(request),
            Lowered::Stopped(Stop::FullRelvarPull(name)) => {
                panic!("pushdown gap: all rows of `{name}` would be pulled")
            }
            Lowered::Stopped(why) => panic!("stopped: {why:?}"),
        }
    }
}

fn lower_source(src: &str) -> LowerOutput {
    match lower(Reader::new(src).program()) {
        Lowered::Done(out) => out,
        Lowered::Stopped(why) => panic!("stopped: {why:?}"),
    }
}

fn lower_source_with(src: &str, plan: &Plan) -> LowerOutput {
    run(|answers| lower_with_plan(Reader::new(src).program(), Some(plan), answers))
}

fn explain_source(src: &str, plan: &Plan) -> LowerOutput {
    run(|answers| explain_with_plan(Reader::new(src).program(), Some(plan), answers))
}

fn greetings_plan() -> Plan {
    Plan {
        database_name: Some("greetings".to_string()),
        backend_kind: BackendKind::Sqlite,
        resolved: vec![ResolvedRelvar {
            app_name: "Greetings".to_string(),
            heading: Heading::new(vec![
                ("id".to_string(), Type::Integer),
                ("message".to_string(), Type::Text),
            ]),
            table_name: "greetings".to_string(),
            columns: vec![
                ("id".to_string(), "id".to_string()),
                ("message".to_string(), "message".to_string()),
            ],
            keys: vec![vec!["id".to_string()]],
            write_policy: WritePolicy::ReadOnly,
        }],
        db_file_default: Some("/tmp/greetings.sqlite".to_string()),
    }
}

/// `greetings_plan` with the relvar marked writable.
fn greetings_rw_plan() -> Plan {
    let mut plan = greetings_plan();
    for r in &mut plan.resolved {
        r.write_policy = WritePolicy::ReadWrite;
    }
    plan
}

const HELLO_WORLD: &str = "program hello_world;\n\
                           \n\
                           oper main {}\n\
                           [\n\
                               write_line{message: \"Hello, world!\"};\n\
                           ];\n";

fn lower_ok(src: &str) -> Module {
    let out = lower_source(src);
    let errors: Vec<_> = out
        .diagnostics
        .iter()
        .filter(|d| d.severity == Severity::Error)
        .collect();
    assert!(errors.is_empty(), "unexpected errors: {errors:?}");
    out.module
        .expect("module should be produced on clean check")
}

#[test]
fn hello_world_lowers_to_four_functions() {
    let m = lower_ok(HELLO_WORLD);
    let names: Vec<_> = m.functions.iter().map(|f| f.name.as_str()).collect();
    for needed in [
        "main",
        "write_line",
        "coddl_runtime_init",
        "coddl_runtime_shutdown",
    ] {
        assert!(names.contains(&needed), "expected {needed} in {names:?}");
    }
    assert_eq!(m.functions.len(), 4);
}

#[test]
fn user_oper_call_lowers_to_in_module_call_and_owns_text() {
    let src = "program p;\n\
               oper greet {} -> Text [ \"hi\" ];\n\
               oper main {} [ let g = greet {}; write_line { message: g }; ];";
    let m = lower_ok(src);

    let greet = m
        .functions
        .iter()
        .find(|f| f.name == "greet")
        .expect("greet function emitted");
    assert!(matches!(greet.return_type, ProcType::Text));
    assert!(greet.blocks.iter().any(
        |b| matches!(b.terminator, Terminator::Return(Some(_)))
    ));

    let main = m
        .functions
        .iter()
        .find(|f| f.name == "main")
        .expect("main emitted");
    let insts = &main.blocks[0].insts;
    let call = insts.iter().find_map(|i| match i {
        Inst::Call {
            callee,
            dst,
            return_type,
            ..
        } if callee == "greet" => Some((dst.is_some(), return_type.clone())),
        _ => None,
    });
    let (binds_dst, ret_ty) = call.expect("main emits a call to greet");
    assert!(binds_dst, "the greet call binds a dst value");
    assert!(matches!(ret_ty, ProcType::Text));
    assert!(
        insts.iter().any(|i| matches!(i, Inst::Release { .. })),
        "main releases the owned Text returned by greet"
    );
}

#[test]
fn loop_carries_reassigned_var_as_block_param() {
    let src = "program p;\n\
               oper main {} [ var total := 0; for i := 1 to 3 do [ total := total + i; ]; ];";
    let m = lower_ok(src);
    let main = m.functions.iter().find(|f| f.name == "main").expect("main");
    let header = main
        .blocks
        .iter()
        .find(|b| matches!(b.terminator, Terminator::CondBr { .. }))
        .expect("loop header block");
    assert_eq!(header.params.len(), 2, "counter + carried `total`");
}

#[test]
fn if_both_arms_introduce_var_as_merge_block_param() {
    let src = "program p;\n\
               oper main {} [ var x; if true then [ x := 1; ] else [ x := 2; ]; let _y = x; ];";
    let m = lower_ok(src);
    let main = m.functions.iter().find(|f| f.name == "main").expect("main");
    assert!(
        main.blocks
            .iter()
            .any(|b| b.params.iter().any(|(_, t)| matches!(t, ProcType::Integer))),
        "expected a merge block parameter carrying the introduced `x`"
    );
}

#[test]
fn heap_var_carried_across_loop_diagnoses_t0076() {
    let src = "program p;\n\
               oper main {} [ var s := \"a\"; for i := 1 to 2 do [ s := s; ]; ];";
    let out = lower_source(src);
    assert!(
        out.diagnostics.iter().any(|d| d.code == "T0076"),
        "expected T0076, got {:?}",
        out.diagnostics
    );
}

// ── SQL pushdown ──────────────────────────────────────────────────

const HELLO_WORLD_DB: &str = "\
program hello_world_db;\n\
database greetings;\n\
\n\
public relvar Greetings {\n\
id: Integer,\n\
message: Text,\n\
}\n\
key { id };\n\
\n\
oper main {}\n\
[\n\
let g = transaction [\n\
    extract (Greetings where id = 1)\n\
];\n\
write_line { message: g.message };\n\
];\n";

fn lower_ok_with_plan(src: &str, plan: &Plan) -> Module {
    let out = lower_source_with(src, plan);
    let errors: Vec<_> = out
        .diagnostics
        .iter()
        .filter(|d| d.severity == Severity::Error)
        .collect();
    assert!(errors.is_empty(), "unexpected errors: {errors:?}");
    out.module.expect("module should be produced on clean check")
}

#[test]
fn explain_captures_pushed_relir_with_its_sql() {
    let out = explain_source(HELLO_WORLD_DB, &greetings_plan());
    assert_eq!(out.relir.len(), 1, "one pushed query expected");
    let entry = &out.relir[0];
    assert_eq!(
        entry.sql,
        r#"SELECT "id", "message" FROM "greetings" WHERE "id" = ?"#
    );
    assert_eq!(
        entry.expr.render(),
        "Restrict { id = 1 }\n  RelvarRef Greetings { db: greetings, table: greetings }"
    );
}

#[test]
fn lowering_follows_the_cut() {
    let plan = greetings_plan();
    let program = || Reader::new(HELLO_WORLD_DB).program();
    let asked = |answers| lower_with_plan(program(), Some(&plan), answers);
    let Lowered::Stopped(Stop::Ask(SqlRequest::Select(expr))) = asked(vec![]) else {
        panic!("a query should be asked for");
    };
    let text = r#"SELECT * FROM "greetings" WHERE "id" = ?"#;
    let statement = || SqlQuery {
        plan_key: 7,
        text: text.to_string(),
        param_count: 1,
        params: vec![ParamSource::Value(Value::Integer(1))],
        rel_params: vec![],
        gate_params: vec![],
        result_heading: expr.heading(),
    };
    let pushed = try_push(&expr, Some(statement()), None).expect("a plan");
    let Lowered::Done(out) = asked(vec![Some(statement())]) else {
        panic!("one answer should do");
    };
    let m = out.module.expect("a module");
    assert_eq!(m.plans.len(), 1);
    assert_eq!(m.plans[0].sql, pushed.query.text);
    assert_eq!(pushed.query.text, text);
    // Without a statement there is no plan, and nothing is left to the database.
    assert!(try_push(&expr, None, None).is_none());
    match asked(vec![None]) {
        Lowered::Stopped(Stop::FullRelvarPull(name)) => assert_eq!(name, "Greetings"),
        other => panic!("rows should be pulled: {other:?}"),
    }
}

#[test]
fn lower_does_not_capture_relir() {
    let out = lower_source_with(HELLO_WORLD_DB, &greetings_plan());
    assert!(out.relir.is_empty());
}

const HELLO_WORLD_DB_CONJUNCT: &str = "\
program hello_world_db;\n\
database greetings;\n\
\n\
public relvar Greetings {\n\
id: Integer,\n\
message: Text,\n\
}\n\
key { id };\n\
\n\
oper main {}\n\
[\n\
let g = transaction [\n\
    extract (Greetings where id = 1 and message = \"hi\")\n\
];\n\
write_line { message: g.message };\n\
];\n";

const HELLO_WORLD_DB_OR_WHERE: &str = "\
program hello_world_db;\n\
database greetings;\n\
\n\
public relvar Greetings {\n\
id: Integer,\n\
message: Text,\n\
}\n\
key { id };\n\
\n\
oper main {}\n\
[\n\
let g = transaction [\n\
    Greetings where id = 1 or id = 2\n\
];\n\
];\n";

#[test]
#[should_panic(expected = "pushdown gap")]
fn nonpushable_where_over_whole_public_relvar_trips_the_guard() {
    let _ = lower_ok_with_plan(HELLO_WORLD_DB_OR_WHERE, &greetings_plan());
}

const HELLO_WORLD_DB_PARTIAL_WHERE: &str = "\
program hello_world_db;\n\
database greetings;\n\
\n\
public relvar Greetings {\n\
id: Integer,\n\
message: Text,\n\
}\n\
key { id };\n\
\n\
oper main {}\n\
[\n\
let g = transaction [\n\
    Greetings where id = 1 where id = 2 or id = 3\n\
];\n\
];\n";

#[test]
fn pushed_filter_then_residual_does_not_trip_the_guard() {
    let _ = lower_ok_with_plan(HELLO_WORLD_DB_PARTIAL_WHERE, &greetings_plan());
}

#[test]
fn conjunctive_where_pushes_as_one_select_with_and() {
    let out = explain_source(HELLO_WORLD_DB_CONJUNCT, &greetings_plan());
    assert_eq!(out.relir.len(), 1, "one pushed query expected");
    let entry = &out.relir[0];
    assert_eq!(
        entry.sql,
        r#"SELECT "id", "message" FROM "greetings" WHERE "id" = ? AND "message" = ?"#
    );
    assert_eq!(
        entry.expr.render(),
        "Restrict { message = \"hi\" }\n  \
         Restrict { id = 1 }\n    \
         RelvarRef Greetings { db: greetings, table: greetings }"
    );

    let m = lower_ok_with_plan(HELLO_WORLD_DB_CONJUNCT, &greetings_plan());
    assert!(
        !m.functions
            .iter()
            .any(|f| f.name.starts_with("__coddl_where_")),
        "conjunctive where should push, not synthesize a predicate helper"
    );
    assert_eq!(m.plans.len(), 1, "exactly one baked plan");
    assert_eq!(m.plans[0].param_count, 2, "two bound conjunct literals");
}

#[test]
fn relvar_where_lowers_to_one_query_with_no_slot_init() {
    let m = lower_ok_with_plan(HELLO_WORLD_DB, &greetings_plan());
    let main = m.functions.iter().find(|f| f.name == "main").expect("main");
    let insts = &main.blocks[0].insts;

    let queries = insts
        .iter()
        .filter(|i| matches!(i, Inst::Query { .. }))
        .count();
    assert_eq!(queries, 1, "expected exactly one Inst::Query");

    assert!(
        !insts.iter().any(|i| matches!(i, Inst::RelvarSlotInit { .. })),
        "startup slot init should be suppressed"
    );
    assert!(
        !insts
            .iter()
            .any(|i| matches!(i, Inst::RelvarSlotRelease { .. })),
        "slot release should be suppressed"
    );
    assert!(
        !insts.iter().any(|i| matches!(i, Inst::Where { .. })),
        "where should be pushed to SQL, not run in-process"
    );
    assert!(
        !insts.iter().any(|i| matches!(i, Inst::RelvarRead { .. })),
        "relvar read should be served by the query"
    );
    assert!(
        !m.functions
            .iter()
            .any(|f| f.name.starts_with("__coddl_where_")),
        "no predicate helper should be synthesized for a pushed where"
    );

    assert_eq!(m.plans.len(), 1);
    assert_eq!(
        m.plans[0].sql,
        r#"SELECT "id", "message" FROM "greetings" WHERE "id" = ?"#
    );
    assert_eq!(m.plans[0].param_count, 1);
    assert_eq!(m.plans[0].db_name, "greetings");

    assert!(
        insts.iter().any(|i| matches!(i, Inst::RegisterDatabase)),
        "prologue should register the database"
    );
    assert_eq!(
        insts
            .iter()
            .filter(|i| matches!(i, Inst::RegisterPlan { .. }))
            .count(),
        1,
        "prologue should register exactly one plan"
    );
}

// ── binding transparency (relation `let`-aliases fold into pushdown) ──

const BT_HEAD: &str = "\
program hello_world_db;\n\
database greetings;\n\
public relvar Greetings { id: Integer, message: Text } key { id };\n\
";

fn bt_main_insts(src: &str) -> (Module, Vec<Inst>) {
    let mut m = lower_ok_with_plan(src, &greetings_plan());
    let main = m.functions.iter_mut().find(|f| f.name == "main").expect("main");
    let insts = std::mem::take(&mut main.blocks[0].insts);
    (m, insts)
}

#[test]
fn binding_transparency_pushes_where_through_let() {
    let src = format!(
        "{BT_HEAD}oper main {{}} [\n\
         let m = transaction [\n\
             let gg = Greetings;\n\
             let greeting = gg where id = 1;\n\
             extract greeting\n\
         ];\n\
         ];\n"
    );
    let (m, insts) = bt_main_insts(&src);
    assert_eq!(
        insts.iter().filter(|i| matches!(i, Inst::Query { .. })).count(),
        1,
        "should fold to one pushed query"
    );
    assert!(
        !insts.iter().any(|i| matches!(i, Inst::Where { .. })),
        "where should push through the binding, not run in-process"
    );
    assert!(
        !insts.iter().any(|i| matches!(i, Inst::RelvarRead { .. })),
        "no in-process relvar read"
    );
    assert_eq!(m.plans.len(), 1);
    assert_eq!(
        m.plans[0].sql,
        r#"SELECT "id", "message" FROM "greetings" WHERE "id" = ?"#
    );
}

#[test]
fn unused_relvar_binding_emits_no_query() {
    let src = format!(
        "{BT_HEAD}oper main {{}} [\n\
         let m = transaction [\n\
             let gg = Greetings;\n\
             extract (Greetings where id = 1)\n\
         ];\n\
         ];\n"
    );
    let (m, insts) = bt_main_insts(&src);
    assert_eq!(
        insts.iter().filter(|i| matches!(i, Inst::Query { .. })).count(),
        1,
        "the unused `gg` alias should add no query"
    );
    assert_eq!(m.plans.len(), 1);
    assert_eq!(
        m.plans[0].sql,
        r#"SELECT "id", "message" FROM "greetings" WHERE "id" = ?"#
    );
}

#[test]
fn binding_to_transaction_result_stays_in_process() {
    let src = format!(
        "{BT_HEAD}oper main {{}} [\n\
         let g = transaction [ Greetings ];\n\
         let hw = g where id = 1;\n\
         let t = extract hw;\n\
         ];\n"
    );
    let (m, insts) = bt_main_insts(&src);
    assert!(
        insts.iter().any(|i| matches!(i, Inst::Where { .. })),
        "where over a transaction-result binding must be in-process"
    );
    assert_eq!(m.plans.len(), 1);
    assert_eq!(
        m.plans[0].sql,
        r#"SELECT "id", "message" FROM "greetings""#,
        "the relvar materializes (SELECT *) inside the transaction"
    );
}

#[test]
fn binding_transparency_pushes_project_through_let() {
    let src = format!(
        "{BT_HEAD}oper main {{}} [\n\
         let m = transaction [\n\
             let gg = Greetings;\n\
             let p = gg project {{message}};\n\
             p\n\
         ];\n\
         ];\n"
    );
    let (m, insts) = bt_main_insts(&src);
    assert_eq!(
        insts.iter().filter(|i| matches!(i, Inst::Query { .. })).count(),
        1,
        "project should fold to one pushed query"
    );
    assert!(
        !insts.iter().any(|i| matches!(i, Inst::Project { .. })),
        "project should push through the binding, not run in-process"
    );
    assert!(
        m.plans[0].sql.contains(r#""message""#) && !m.plans[0].sql.contains(r#""id""#),
        "expected a narrowed SELECT on `message`"
    );
}

const HELLO_WORLD_DB_PROJECT: &str = "\
program hello_world_db;\n\
database greetings;\n\
\n\
public relvar Greetings {\n\
id: Integer,\n\
message: Text,\n\
}\n\
key { id };\n\
\n\
oper main {}\n\
[\n\
let g = transaction [\n\
    extract (Greetings where id = 1 project {message})\n\
];\n\
write_line { message: g.message };\n\
];\n";

#[test]
fn relvar_project_lowers_to_one_query_with_narrowed_sql() {
    let m = lower_ok_with_plan(HELLO_WORLD_DB_PROJECT, &greetings_plan());
    let main = m.functions.iter().find(|f| f.name == "main").expect("main");
    let insts = &main.blocks[0].insts;

    let queries = insts
        .iter()
        .filter(|i| matches!(i, Inst::Query { .. }))
        .count();
    assert_eq!(queries, 1, "expected exactly one Inst::Query");
    assert!(
        !insts.iter().any(|i| matches!(i, Inst::Where { .. })),
        "where should be pushed, not in-process"
    );
    assert!(
        !insts.iter().any(|i| matches!(i, Inst::RelvarRead { .. })),
        "relvar read should be served by the query"
    );
    assert!(
        !insts.iter().any(|i| matches!(i, Inst::RelvarSlotInit { .. })),
        "startup slot init should be suppressed"
    );

    assert_eq!(m.plans.len(), 1);
    assert_eq!(
        m.plans[0].sql,
        r#"SELECT "message" FROM "greetings" WHERE "id" = ?"#
    );
    assert_eq!(m.plans[0].param_count, 1);
}

#[test]
fn project_over_relation_literal_lowers_to_in_process_project() {
    let src = "oper main {} [ let _s = Relation { {a: 1, b: 2} } project {a}; ];";
    let out = lower_source(src);
    assert!(
        out.diagnostics.is_empty(),
        "unexpected diagnostics: {:?}",
        out.diagnostics
    );
    let m = out.module.expect("module on clean lowering");
    let main = m.functions.iter().find(|f| f.name == "main").unwrap();
    let insts = &main.blocks[0].insts;
    assert!(
        !insts.iter().any(|i| matches!(i, Inst::Query { .. })),
        "relation-literal project must not push to SQL"
    );
    let result_heading_id = insts
        .iter()
        .find_map(|i| match i {
            Inst::Project {
                result_heading_id, ..
            } => Some(*result_heading_id),
            _ => None,
        })
        .expect("expected an Inst::Project");
    let h = &m.headings[result_heading_id.0 as usize];
    assert_eq!(h.attrs().len(), 1, "projection should narrow to one attr");
    assert!(h.lookup("a").is_some());
    assert!(h.lookup("b").is_none(), "`b` should be projected away");
}

#[test]
fn relvar_all_but_pushes_same_narrowed_sql() {
    let src = HELLO_WORLD_DB_PROJECT.replace("project {message}", "project all but {id}");
    let m = lower_ok_with_plan(&src, &greetings_plan());
    assert_eq!(m.plans.len(), 1);
    assert_eq!(
        m.plans[0].sql,
        r#"SELECT "message" FROM "greetings" WHERE "id" = ?"#
    );
}

#[test]
fn project_all_but_over_relation_literal_keeps_complement_in_process() {
    let src = "oper main {} [ let _s = Relation { {a: 1, b: 2} } project all but {a}; ];";
    let out = lower_source(src);
    assert!(out.diagnostics.is_empty(), "{:?}", out.diagnostics);
    let m = out.module.expect("module");
    let main = m.functions.iter().find(|f| f.name == "main").unwrap();
    let result_heading_id = main.blocks[0]
        .insts
        .iter()
        .find_map(|i| match i {
            Inst::Project {
                result_heading_id, ..
            } => Some(*result_heading_id),
            _ => None,
        })
        .expect("expected an Inst::Project");
    let h = &m.headings[result_heading_id.0 as usize];
    assert_eq!(h.attrs().len(), 1);
    assert!(h.lookup("b").is_some(), "complement keeps `b`");
    assert!(h.lookup("a").is_none(), "`a` was removed");
}

// ── arithmetic & concatenation lowering ──────────────────────────

#[test]
fn char_literal_lowers_to_const_character() {
    let src = "oper main {} [ let _c = 'a'; ];";
    let out = lower_source(src);
    assert!(out.diagnostics.is_empty(), "{:?}", out.diagnostics);
    let m = out.module.expect("module");
    let main = m.functions.iter().find(|f| f.name == "main").unwrap();
    assert!(
        main.blocks[0].insts.iter().any(
            |i| matches!(i, Inst::Const { value: Const::Character(c), .. } if *c == 'a' as u32)
        ),
        "char literal lowers to Const::Character"
    );
}

#[test]
fn concat_with_char_lowers_char_to_text_then_concat() {
    let src = "oper main {} [ let _s = \"x\" || 'y'; ];";
    let out = lower_source(src);
    assert!(out.diagnostics.is_empty(), "{:?}", out.diagnostics);
    let m = out.module.expect("module");
    let main = m.functions.iter().find(|f| f.name == "main").unwrap();
    let insts = &main.blocks[0].insts;
    assert!(
        insts.iter().any(|i| matches!(i, Inst::CharToText { .. })),
        "char operand normalized via CharToText"
    );
    assert!(
        insts
            .iter()
            .any(|i| matches!(i, Inst::ScalarOp { op: ScalarOp::Concat, .. })),
        "concatenation lowers to ScalarOp::Concat"
    );
}

#[test]
fn arithmetic_in_where_predicate_lowers_scalar_add() {
    let src = "oper main {} [ let _s = Relation { {a: 1, b: 2} } where a + b > 2; ];";
    let out = lower_source(src);
    assert!(out.diagnostics.is_empty(), "{:?}", out.diagnostics);
    let m = out.module.expect("module");
    let pred = m
        .functions
        .iter()
        .find(|f| f.name.starts_with("__coddl_where_"))
        .expect("predicate helper function");
    let has_add = pred
        .blocks
        .iter()
        .flat_map(|b| &b.insts)
        .any(|i| matches!(i, Inst::ScalarOp { op: ScalarOp::Add, .. }));
    assert!(has_add, "predicate body computes a + b via ScalarOp::Add");
}

#[test]
fn relvar_rename_pushes_aliased_sql() {
    let src = "\
program hello_world_db;
database greetings;
public relvar Greetings { id: Integer, message: Text } key { id };
oper main {} [
let g = transaction [ extract (Greetings where id = 1 rename {identifier: id, msg: message}) ];
write_line { message: g.msg };
];
";
    let m = lower_ok_with_plan(src, &greetings_plan());
    assert_eq!(m.plans.len(), 1);
    assert_eq!(
        m.plans[0].sql,
        r#"SELECT "id" AS "identifier", "message" AS "msg" FROM "greetings" WHERE "id" = ?"#
    );
    let main = m.functions.iter().find(|f| f.name == "main").unwrap();
    assert_eq!(
        main.blocks[0]
            .insts
            .iter()
            .filter(|i| matches!(i, Inst::Query { .. }))
            .count(),
        1
    );
}

#[test]
fn relvar_extend_pushes_computed_column_sql() {
    let src = "\
program hello_world_db;
database greetings;
public relvar Greetings { id: Integer, message: Text } key { id };
oper main {} [
let g = transaction [ extract (Greetings where id = 1 extend {twice: id + id}) ];
write_line { message: g.message };
];
";
    let m = lower_ok_with_plan(src, &greetings_plan());
    assert_eq!(m.plans.len(), 1);
    assert_eq!(
        m.plans[0].sql,
        r#"SELECT "id", "message", ("id" + "id") AS "twice" FROM "greetings" WHERE "id" = ?"#
    );
}

#[test]
fn self_assignment_private_relvar_emits_nothing() {
    let src = "program p; private relvar R { a: Integer } key { a }; \
               oper main {} [ R := R; ];";
    let m = lower_ok(src);
    let main = m.functions.iter().find(|f| f.name == "main").unwrap();
    assert!(
        main.blocks
            .iter()
            .flat_map(|b| &b.insts)
            .all(|i| !matches!(i, Inst::RelvarSlotStore { .. })),
        "R := R must emit no slot store"
    );
}

#[test]
fn self_assignment_public_relvar_emits_nothing() {
    let src = "\
program hello_world_db;
database greetings;
public relvar Greetings { id: Integer, message: Text } key { id };
oper main {} [
transaction [ Greetings := Greetings; ];
];
";
    let m = lower_ok_with_plan(src, &greetings_plan());
    let main = m.functions.iter().find(|f| f.name == "main").unwrap();
    assert!(
        main.blocks
            .iter()
            .flat_map(|b| &b.insts)
            .all(|i| !matches!(i, Inst::Dml { .. } | Inst::InsertFrom { .. })),
        "Greetings := Greetings must emit no DML"
    );
}

#[test]
fn truncate_public_relvar_emits_dml() {
    let src = "\
program hello_world_db;
database greetings;
public relvar Greetings { id: Integer, message: Text } key { id };
oper main {} [
transaction [ truncate Greetings; ];
];
";
    let m = lower_ok_with_plan(src, &greetings_rw_plan());
    let main = m.functions.iter().find(|f| f.name == "main").unwrap();
    assert!(
        main.blocks
            .iter()
            .flat_map(|b| &b.insts)
            .any(|i| matches!(i, Inst::Dml { .. })),
        "truncate Greetings must emit surgical DML"
    );
}

#[test]
fn truncate_private_relvar_emits_minus_and_store() {
    let src = "program p; private relvar R { a: Integer } key { a }; \
               oper main {} [ truncate R; ];";
    let m = lower_ok(src);
    let main = m.functions.iter().find(|f| f.name == "main").unwrap();
    let insts: Vec<_> = main.blocks.iter().flat_map(|b| &b.insts).collect();
    assert!(
        insts.iter().any(|i| matches!(i, Inst::Minus { .. })),
        "truncate R must compute R minus R"
    );
    assert!(
        insts
            .iter()
            .any(|i| matches!(i, Inst::RelvarSlotStore { .. })),
        "truncate R must store the empty result into the slot"
    );
}

#[test]
fn delete_public_relvar_emits_dml() {
    let src = "\
program hello_world_db;
database greetings;
public relvar Greetings { id: Integer, message: Text } key { id };
oper main {} [
transaction [ delete Greetings where id = 1; ];
];
";
    let m = lower_ok_with_plan(src, &greetings_rw_plan());
    let main = m.functions.iter().find(|f| f.name == "main").unwrap();
    assert!(
        main.blocks
            .iter()
            .flat_map(|b| &b.insts)
            .any(|i| matches!(i, Inst::Dml { .. })),
        "delete must emit surgical DML"
    );
}

#[test]
fn delete_private_relvar_emits_minus_and_store() {
    let src = "program p; private relvar R { a: Integer } key { a }; \
               oper main {} [ delete R where a = 1; ];";
    let m = lower_ok(src);
    let main = m.functions.iter().find(|f| f.name == "main").unwrap();
    let insts: Vec<_> = main.blocks.iter().flat_map(|b| &b.insts).collect();
    assert!(
        insts.iter().any(|i| matches!(i, Inst::Minus { .. })),
        "delete R where p must compute R minus (R where p)"
    );
    assert!(
        insts
            .iter()
            .any(|i| matches!(i, Inst::RelvarSlotStore { .. })),
        "delete must store the kept rows into the slot"
    );
}

#[test]
fn insert_tuple_set_public_ships_rows() {
    let src = "\
program hello_world_db;
database greetings;
public relvar Greetings { id: Integer, message: Text } key { id };
oper main {} [
transaction [ insert Greetings { {id: 7, message: \"x\"} }; ];
];
";
    let m = lower_ok_with_plan(src, &greetings_rw_plan());
    let main = m.functions.iter().find(|f| f.name == "main").unwrap();
    assert!(
        main.blocks
            .iter()
            .flat_map(|b| &b.insts)
            .any(|i| matches!(i, Inst::InsertFrom { .. })),
        "insert of a tuple-set must ship rows via InsertFrom"
    );
}

#[test]
fn insert_private_relvar_emits_union_and_store() {
    let src = "program p; private relvar R { a: Integer } key { a }; \
               oper main {} [ insert R { {a: 1} }; ];";
    let m = lower_ok(src);
    let main = m.functions.iter().find(|f| f.name == "main").unwrap();
    let insts: Vec<_> = main.blocks.iter().flat_map(|b| &b.insts).collect();
    assert!(
        insts.iter().any(|i| matches!(i, Inst::Union { .. })),
        "insert R must compute R union source"
    );
    assert!(
        insts
            .iter()
            .any(|i| matches!(i, Inst::RelvarSlotStore { .. })),
        "insert must store the union into the slot"
    );
}

#[test]
fn update_public_where_emits_dml() {
    let src = "\
program hello_world_db;
database greetings;
public relvar Greetings { id: Integer, message: Text } key { id };
oper main {} [
transaction [ update Greetings where id = 1 { message: \"hi\" }; ];
];
";
    let m = lower_ok_with_plan(src, &greetings_rw_plan());
    let main = m.functions.iter().find(|f| f.name == "main").unwrap();
    assert!(
        main.blocks
            .iter()
            .flat_map(|b| &b.insts)
            .any(|i| matches!(i, Inst::Dml { .. })),
        "update must emit surgical DML"
    );
}

#[test]
fn update_public_all_emits_dml() {
    let src = "\
program hello_world_db;
database greetings;
public relvar Greetings { id: Integer, message: Text } key { id };
oper main {} [
transaction [ update Greetings { message: \"hi\" }; ];
];
";
    let m = lower_ok_with_plan(src, &greetings_rw_plan());
    let main = m.functions.iter().find(|f| f.name == "main").unwrap();
    assert!(
        main.blocks
            .iter()
            .flat_map(|b| &b.insts)
            .any(|i| matches!(i, Inst::Dml { .. })),
        "update-all must emit surgical DML"
    );
}

#[test]
fn update_private_where_emits_minus_union_store() {
    let src = "program p; private relvar R { a: Integer, b: Text } key { a }; \
               oper main {} [ update R where a = 1 { b: \"x\" }; ];";
    let m = lower_ok(src);
    let main = m.functions.iter().find(|f| f.name == "main").unwrap();
    let insts: Vec<_> = main.blocks.iter().flat_map(|b| &b.insts).collect();
    assert!(insts.iter().any(|i| matches!(i, Inst::Minus { .. })), "unchanged = R minus matching");
    assert!(insts.iter().any(|i| matches!(i, Inst::Union { .. })), "result = unchanged union changed");
    assert!(
        insts.iter().any(|i| matches!(i, Inst::RelvarSlotStore { .. })),
        "update stores the result into the slot"
    );
}

#[test]
fn update_private_all_emits_substitute_store_no_union() {
    let src = "program p; private relvar R { a: Integer, b: Text } key { a }; \
               oper main {} [ update R { b: \"x\" }; ];";
    let m = lower_ok(src);
    let main = m.functions.iter().find(|f| f.name == "main").unwrap();
    let insts: Vec<_> = main.blocks.iter().flat_map(|b| &b.insts).collect();
    assert!(insts.iter().any(|i| matches!(i, Inst::Extend { .. })), "substitute extends the new value");
    assert!(
        insts.iter().any(|i| matches!(i, Inst::RelvarSlotStore { .. })),
        "update-all stores the substituted relation"
    );
    assert!(
        !insts.iter().any(|i| matches!(i, Inst::Union { .. } | Inst::Minus { .. })),
        "update-all has no unchanged-rows union"
    );
}

#[test]
fn extend_over_relation_literal_lowers_in_process() {
    let src = "oper main {} [ let _s = Relation { {a: 1, b: 2} } extend {c: a + b}; ];";
    let out = lower_source(src);
    assert!(out.diagnostics.is_empty(), "{:?}", out.diagnostics);
    let m = out.module.expect("module");
    let main = m.functions.iter().find(|f| f.name == "main").unwrap();
    assert!(
        main.blocks[0]
            .insts
            .iter()
            .any(|i| matches!(i, Inst::Extend { .. })),
        "main emits Inst::Extend"
    );
    let helper = m
        .functions
        .iter()
        .find(|f| f.name.starts_with("__coddl_extend_"))
        .expect("synthesized extend helper");
    assert_eq!(helper.params.len(), 2, "helper has src + dst pointer params");
    assert_eq!(helper.return_type, ProcType::Unit);
    let insts = &helper.blocks[0].insts;
    assert!(
        insts
            .iter()
            .any(|i| matches!(i, Inst::ScalarOp { op: ScalarOp::Add, .. })),
        "helper computes a + b"
    );
    assert!(
        insts.iter().any(|i| matches!(i, Inst::AttrStore { .. })),
        "helper stores the widened cells"
    );
}

#[test]
fn rename_over_relation_literal_lowers_to_inst_rename() {
    let src = "oper main {} [ let _s = Relation { {a: 1, b: 2} } rename {z: a}; ];";
    let out = lower_source(src);
    assert!(out.diagnostics.is_empty(), "{:?}", out.diagnostics);
    let m = out.module.expect("module");
    let main = m.functions.iter().find(|f| f.name == "main").unwrap();
    let (result_heading_id, perm) = main.blocks[0]
        .insts
        .iter()
        .find_map(|i| match i {
            Inst::Rename {
                result_heading_id,
                perm,
                ..
            } => Some((*result_heading_id, perm.clone())),
            _ => None,
        })
        .expect("expected an Inst::Rename");
    let h = &m.headings[result_heading_id.0 as usize];
    assert!(h.lookup("z").is_some(), "renamed to `z`");
    assert!(h.lookup("b").is_some(), "`b` kept");
    assert!(h.lookup("a").is_none(), "`a` renamed away");
    assert_eq!(perm, vec![1, 0], "dst [b, z] ← src [a, b] indices");
}

#[test]
fn empty_relation_literal_lowers_to_relfalse() {
    let src = "oper main {} [ let _f = Relation {}; ];";
    let m = lower_ok(src);
    let main = m.functions.iter().find(|f| f.name == "main").unwrap();
    let (tuples_len, heading_id) = main.blocks[0]
        .insts
        .iter()
        .find_map(|i| match i {
            Inst::RelationLit {
                tuples, heading_id, ..
            } => Some((tuples.len(), *heading_id)),
            _ => None,
        })
        .expect("expected an Inst::RelationLit");
    assert_eq!(tuples_len, 0, "relfalse has zero tuples");
    assert!(
        m.headings[heading_id.0 as usize].attrs().is_empty(),
        "relfalse carries the empty (nullary) heading"
    );
}

#[test]
fn headed_empty_relation_interns_the_annotation_heading() {
    let src = "oper main {} [ let _r: Relation { name: Text } = Relation {}; ];";
    let m = lower_ok(src);
    let main = m.functions.iter().find(|f| f.name == "main").unwrap();
    let (tuples_len, heading_id) = main.blocks[0]
        .insts
        .iter()
        .find_map(|i| match i {
            Inst::RelationLit {
                tuples, heading_id, ..
            } => Some((tuples.len(), *heading_id)),
            _ => None,
        })
        .expect("expected an Inst::RelationLit");
    assert_eq!(tuples_len, 0, "still an empty relation (zero tuples)");
    let h = &m.headings[heading_id.0 as usize];
    assert!(h.lookup("name").is_some(), "carries the annotation's `name`");
    assert_eq!(h.attrs().len(), 1, "exactly the annotation heading");
}

#[test]
fn materialized_where_still_lowers_in_process_with_pushdown_enabled() {
    let plan = Plan {
        database_name: None,
        backend_kind: BackendKind::Sqlite,
        resolved: vec![],
        db_file_default: None,
    };
    let src = "program rel_lit;\n\
               oper main {}\n\
               [\n\
                   write_relation { rel: Relation { {a: 1}, {a: 2} } where a = 2 };\n\
               ];\n";
    let m = lower_ok_with_plan(src, &plan);
    let main = m.functions.iter().find(|f| f.name == "main").expect("main");
    let insts = &main.blocks[0].insts;
    assert!(
        insts.iter().any(|i| matches!(i, Inst::Where { .. })),
        "materialized where should stay in-process"
    );
    assert!(
        !insts.iter().any(|i| matches!(i, Inst::Query { .. })),
        "a relation literal must not be pushed to SQL"
    );
    assert!(m.plans.is_empty(), "no plans for a materialized where");
}

#[test]
fn hello_world_main_body_is_init_const_call_shutdown() {
    let m = lower_ok(HELLO_WORLD);
    let main = m.functions.iter().find(|f| f.name == "main").unwrap();
    assert_eq!(main.blocks.len(), 1);
    let block = &main.blocks[0];
    assert_eq!(block.insts.len(), 4);

    match &block.insts[0] {
        Inst::Call {
            callee,
            args,
            return_type: ProcType::Integer,
            ..
        } => {
            assert_eq!(callee, "coddl_runtime_init");
            assert!(args.is_empty());
        }
        other => panic!("expected init Call, got {other:?}"),
    }

    match &block.insts[1] {
        Inst::Const {
            value: Const::Text(bytes),
            ty: ProcType::Text,
            ..
        } => assert_eq!(bytes, b"Hello, world!"),
        other => panic!("expected Const Text, got {other:?}"),
    }

    match &block.insts[2] {
        Inst::Call {
            dst: None,
            callee,
            args,
            return_type: ProcType::Unit,
        } => {
            assert_eq!(callee, "coddl_write_line");
            assert_eq!(args.len(), 1);
        }
        other => panic!("expected write_line Call, got {other:?}"),
    }

    match &block.insts[3] {
        Inst::Call {
            callee,
            args,
            return_type: ProcType::Integer,
            ..
        } => {
            assert_eq!(callee, "coddl_runtime_shutdown");
            assert!(args.is_empty());
        }
        other => panic!("expected shutdown Call, got {other:?}"),
    }
    assert!(matches!(block.terminator, Terminator::Return(None)));
}

#[test]
fn let_binding_threaded_into_write_line_call() {
    let src = "oper main {} [ let msg = \"hi\"; write_line{message: msg}; ];";
    let m = lower_ok(src);
    let main = m.functions.iter().find(|f| f.name == "main").unwrap();
    let insts = &main.blocks[0].insts;
    let const_dst = insts
        .iter()
        .find_map(|i| match i {
            Inst::Const {
                dst,
                value: Const::Text(bytes),
                ..
            } if bytes == b"hi" => Some(*dst),
            _ => None,
        })
        .expect("Const Text \"hi\" present");
    let call_arg = insts
        .iter()
        .find_map(|i| match i {
            Inst::Call { callee, args, .. } if callee == "coddl_write_line" => {
                Some(args.first().copied())
            }
            _ => None,
        })
        .expect("write_line call present")
        .expect("write_line call has an arg");
    assert_eq!(
        call_arg, const_dst,
        "let binding should thread its ValueId to the call site"
    );
}

#[test]
fn transaction_tail_expression_value_flows_out() {
    let src = "oper main {} [ let ok = transaction [ \"ok\" ]; write_line{message: ok}; ];";
    let m = lower_ok(src);
    let main = m.functions.iter().find(|f| f.name == "main").unwrap();
    let insts = &main.blocks[0].insts;

    let ok_const_dst = insts
        .iter()
        .find_map(|i| match i {
            Inst::Const {
                dst,
                value: Const::Text(bytes),
                ..
            } if bytes == b"ok" => Some(*dst),
            _ => None,
        })
        .expect("Const Text \"ok\" present");
    let call_arg = insts
        .iter()
        .find_map(|i| match i {
            Inst::Call { callee, args, .. } if callee == "coddl_write_line" => {
                Some(args.first().copied())
            }
            _ => None,
        })
        .expect("write_line call present")
        .expect("write_line call has an arg");
    assert_eq!(call_arg, ok_const_dst);
}

#[test]
fn hello_world_extern_has_no_blocks() {
    let m = lower_ok(HELLO_WORLD);
    let ext = m.functions.iter().find(|f| f.name == "write_line").unwrap();
    assert!(ext.is_extern());
    assert_eq!(ext.linkage_name, "coddl_write_line");
    assert_eq!(ext.params.len(), 1);
    assert_eq!(ext.params[0].0, "message");
    assert_eq!(ext.params[0].1, ProcType::Text);
    assert_eq!(ext.return_type, ProcType::Unit);
}

#[test]
fn read_line_lowers_to_text_returning_call() {
    let src = "oper main {} [ let n = read_line{prompt: \"p\"}; write_line{message: n}; ];";
    let m = lower_ok(src);

    let ext = m.functions.iter().find(|f| f.name == "read_line").unwrap();
    assert!(ext.is_extern());
    assert_eq!(ext.linkage_name, "coddl_read_line");
    assert_eq!(ext.params.len(), 1);
    assert_eq!(ext.params[0].0, "prompt");
    assert_eq!(ext.params[0].1, ProcType::Text);
    assert_eq!(ext.return_type, ProcType::Text);

    let main = m.functions.iter().find(|f| f.name == "main").unwrap();
    let insts = &main.blocks[0].insts;
    let read_dst = insts
        .iter()
        .find_map(|i| match i {
            Inst::Call {
                callee,
                dst,
                return_type,
                ..
            } if callee == "coddl_read_line" => {
                assert_eq!(*return_type, ProcType::Text);
                Some(dst.expect("read_line call binds a dst"))
            }
            _ => None,
        })
        .expect("read_line call present");
    let write_arg = insts
        .iter()
        .find_map(|i| match i {
            Inst::Call { callee, args, .. } if callee == "coddl_write_line" => {
                Some(args.first().copied())
            }
            _ => None,
        })
        .expect("write_line call present")
        .expect("write_line call has an arg");
    assert_eq!(
        write_arg, read_dst,
        "read_line's Text result should thread into the write_line arg"
    );
}

// ── scalar Text refcounting (owned/borrowed provenance) ──────────

fn main_releases(m: &Module) -> Vec<ValueId> {
    let main = m.functions.iter().find(|f| f.name == "main").unwrap();
    main.blocks[0]
        .insts
        .iter()
        .filter_map(|i| match i {
            Inst::Release { src } => Some(*src),
            _ => None,
        })
        .collect()
}

fn first_concat_dst(m: &Module) -> ValueId {
    let main = m.functions.iter().find(|f| f.name == "main").unwrap();
    main.blocks[0]
        .insts
        .iter()
        .find_map(|i| match i {
            Inst::ScalarOp {
                dst,
                op: ScalarOp::Concat,
                ..
            } => Some(*dst),
            _ => None,
        })
        .expect("a Concat present")
}

#[test]
fn owned_text_local_released_at_scope_exit() {
    let src = "oper main {} [ let m = \"a\" || \"b\"; write_line { message: m }; ];";
    let module = lower_ok(src);
    let concat = first_concat_dst(&module);
    let releases = main_releases(&module);
    assert_eq!(
        releases.iter().filter(|v| **v == concat).count(),
        1,
        "owned concat local released exactly once; releases={releases:?}"
    );
    assert_eq!(releases.len(), 1, "only the concat local; releases={releases:?}");
}

#[test]
fn chained_concat_releases_intermediate() {
    let src = "oper main {} [ let m = \"a\" || \"b\" || \"c\"; write_line { message: m }; ];";
    let module = lower_ok(src);
    let inner = first_concat_dst(&module);
    let releases = main_releases(&module);
    assert!(
        releases.contains(&inner),
        "inner concat temporary released; releases={releases:?}"
    );
    assert_eq!(releases.len(), 2, "inner temp + outer local; releases={releases:?}");
}

#[test]
fn inline_concat_argument_released_after_call() {
    let src = "oper greet { name: Text } [ write_line { message: \"a\" || name }; ];";
    let module = lower_ok(src);
    let greet = module.functions.iter().find(|f| f.name == "greet").unwrap();
    let concat = greet
        .blocks[0]
        .insts
        .iter()
        .find_map(|i| match i {
            Inst::ScalarOp { dst, op: ScalarOp::Concat, .. } => Some(*dst),
            _ => None,
        })
        .expect("a Concat present");
    let releases: Vec<ValueId> = greet.blocks[0]
        .insts
        .iter()
        .filter_map(|i| match i {
            Inst::Release { src } => Some(*src),
            _ => None,
        })
        .collect();
    assert_eq!(releases, vec![concat], "only the inline concat temp; got {releases:?}");
}

#[test]
fn borrowed_text_field_is_not_released() {
    let src = "oper main {} [ let t = { message: \"hi\" }; write_line { message: t.message }; ];";
    let module = lower_ok(src);
    assert!(
        main_releases(&module).is_empty(),
        "borrowed Text field must not be released"
    );
}

#[test]
fn string_literal_decodes_escapes() {
    let src = "oper main {} [ write_line{message: \"a\\nb\"}; ];";
    let m = lower_ok(src);
    let main = m.functions.iter().find(|f| f.name == "main").unwrap();
    let block = &main.blocks[0];
    let text_const = block
        .insts
        .iter()
        .find_map(|i| match i {
            Inst::Const {
                value: Const::Text(bytes),
                ..
            } => Some(bytes.as_slice()),
            _ => None,
        })
        .expect("expected a Const Text in main");
    assert_eq!(text_const, b"a\nb");
}

#[test]
fn program_name_carried_through() {
    let src = "program greet; oper main {} [];";
    let m = lower_ok(src);
    assert_eq!(m.program_name, "greet");
}

#[test]
fn multiple_opers_lower_independently() {
    let src = "oper foo {} []; oper bar {} [];";
    let m = lower_ok(src);
    let defined: Vec<&str> = m
        .functions
        .iter()
        .filter(|f| !f.is_extern())
        .map(|f| f.name.as_str())
        .collect();
    assert_eq!(defined, vec!["foo", "bar"]);
}

#[test]
fn typecheck_error_returns_none_module() {
    let src = "oper main {} [ write_lne{message: \"x\"}; ];";
    let out = lower_source(src);
    assert!(out.module.is_none());
    assert!(out.diagnostics.iter().any(|d| d.code == "T0001"));
}

#[test]
fn oper_param_reference_lowers_to_param_value() {
    let src = "program p; \
               oper echo { self: Text } -> Text [ self ]; \
               oper main {} [ let g = echo { self: \"x\" }; \
               write_line { message: g }; ];";
    let m = lower_ok(src);
    let echo = m.functions.iter().find(|f| f.name == "echo").expect("echo fn");
    let term = &echo.blocks.last().expect("a block").terminator;
    assert!(
        matches!(term, Terminator::Return(Some(v)) if *v == ValueId(0)),
        "expected echo to return its `self` param ValueId(0), got {term:?}"
    );
}

#[test]
fn nonempty_sequence_literal_lowers_to_sequence_lit() {
    let src = "oper main {} [ let _s = Sequence [ \"a\", \"b\" ]; \
               write_line { message: \"ok\" }; ];";
    let m = lower_ok(src);
    let main = m.functions.iter().find(|f| f.name == "main").unwrap();
    let has_seq = main
        .blocks
        .iter()
        .flat_map(|b| &b.insts)
        .any(|i| matches!(i, Inst::SequenceLit { .. }));
    assert!(has_seq, "expected a SequenceLit instruction");
}

#[test]
fn format_dispatches_sequence_placeholder_to_user_to_text() {
    let src = "program p; \
               oper to_text { self: Sequence Text } -> Text [ \"x\" ]; \
               oper main {} [ let names = Sequence [ \"a\" ]; \
               let m = format { template: f\"{names}\", args: { names } }; \
               write_line { message: m }; ];";
    let m = lower_ok(src);
    let main = m.functions.iter().find(|f| f.name == "main").unwrap();
    let calls_to_text = main
        .blocks
        .iter()
        .flat_map(|b| &b.insts)
        .any(|i| matches!(i, Inst::Call { callee, .. } if callee == "to_text"));
    assert!(calls_to_text, "expected a call to the user `to_text`");
}

#[test]
fn empty_sequence_literal_is_not_yet_executable_emits_t0064() {
    let src = "oper main {} [ let _s: Sequence Integer = Sequence []; ];";
    let out = lower_source(src);
    assert!(
        out.module.is_none(),
        "expected no module for an empty sequence"
    );
    assert!(
        out.diagnostics.iter().any(|d| d.code == "T0064"),
        "expected T0064, got {:?}",
        out.diagnostics
    );
}

#[test]
fn call_to_write_line_uses_coddl_prefix_in_linkage_name() {
    let m = lower_ok(HELLO_WORLD);
    let main = m.functions.iter().find(|f| f.name == "main").unwrap();
    let call = main
        .blocks
        .iter()
        .flat_map(|b| &b.insts)
        .find_map(|i| match i {
            Inst::Call { callee, args, .. } if !args.is_empty() => Some(callee.as_str()),
            _ => None,
        })
        .unwrap();
    assert_eq!(call, "coddl_write_line");
}

#[test]
fn non_main_oper_with_return_type_emits_typed_return() {
    let src = "oper compute {} -> Integer [ 42 ]; oper main {} [];";
    let m = lower_ok(src);
    let compute = m.functions.iter().find(|f| f.name == "compute").unwrap();
    assert_eq!(compute.return_type, ProcType::Integer);
    assert_eq!(compute.blocks.len(), 1);
    match &compute.blocks[0].terminator {
        Terminator::Return(Some(_)) => {}
        other => panic!("expected Return(Some(_)), got {other:?}"),
    }
}

#[test]
fn oper_without_explicit_return_stays_unit() {
    let src = "oper noop {} [];";
    let m = lower_ok(src);
    let noop = m.functions.iter().find(|f| f.name == "noop").unwrap();
    assert_eq!(noop.return_type, ProcType::Unit);
    assert!(matches!(
        noop.blocks[0].terminator,
        Terminator::Return(None)
    ));
}

// ── `if … then [ … ] else [ … ]` multi-block lowering ────────────

#[test]
fn if_with_else_lowers_to_four_blocks_with_merge_param() {
    let src = "oper pick { self: Boolean } -> Integer \
               [ if self then [ 1 ] else [ 2 ] ];";
    let m = lower_ok(src);
    let pick = m.functions.iter().find(|f| f.name == "pick").unwrap();
    assert_eq!(pick.blocks.len(), 4, "entry + then + else + merge");
    assert!(
        matches!(pick.blocks[0].terminator, Terminator::CondBr { .. }),
        "entry ends in CondBr, got {:?}",
        pick.blocks[0].terminator
    );
    let brs = pick
        .blocks
        .iter()
        .filter(|b| matches!(b.terminator, Terminator::Br { .. }))
        .count();
    assert_eq!(brs, 2, "both arms branch to the merge");
    let merge = pick
        .blocks
        .iter()
        .find(|b| !b.params.is_empty())
        .expect("a merge block with a parameter");
    assert_eq!(merge.params.len(), 1);
    assert_eq!(merge.params[0].1, ProcType::Integer);
    assert!(matches!(merge.terminator, Terminator::Return(Some(_))));
}

#[test]
fn if_without_else_lowers_to_three_blocks_no_param() {
    let src = "oper act { self: Boolean } [ if self then [ {} ]; ];";
    let m = lower_ok(src);
    let act = m.functions.iter().find(|f| f.name == "act").unwrap();
    assert_eq!(act.blocks.len(), 3, "entry + then + merge");
    assert!(matches!(act.blocks[0].terminator, Terminator::CondBr { .. }));
    let brs = act
        .blocks
        .iter()
        .filter(|b| matches!(b.terminator, Terminator::Br { .. }))
        .count();
    assert_eq!(brs, 1, "only the then-arm branches to the merge");
    assert!(
        act.blocks.iter().all(|b| b.params.is_empty()),
        "a Unit `if` carries no merge parameter"
    );
}

// ── counted `for` loop ────────────────────

#[test]
fn for_counted_lowers_to_back_edge_cfg() {
    let src = "oper counted {} [ for i := 0 to 2 do [ let _x = i; ]; ];";
    let m = lower_ok(src);
    let f = m.functions.iter().find(|f| f.name == "counted").unwrap();
    assert_eq!(f.blocks.len(), 4, "entry + header + body + exit");

    let headers: Vec<_> = f.blocks.iter().filter(|b| !b.params.is_empty()).collect();
    assert_eq!(headers.len(), 1, "only the header carries a block param");
    let header = headers[0];
    assert_eq!(header.params.len(), 1);
    assert_eq!(header.params[0].1, ProcType::Integer, "counter is Integer");
    assert!(
        matches!(header.terminator, Terminator::CondBr { .. }),
        "header ends in CondBr, got {:?}",
        header.terminator
    );

    let header_id = header.id;
    let header_idx = f.blocks.iter().position(|b| b.id == header_id).unwrap();
    let has_back_edge = f.blocks.iter().enumerate().any(|(idx, b)| {
        idx > header_idx
            && matches!(&b.terminator, Terminator::Br { target, .. } if *target == header_id)
    });
    assert!(has_back_edge, "a later block branches back to the header");

    match &f.blocks[0].terminator {
        Terminator::Br { target, args } => {
            assert_eq!(*target, header_id, "entry branches to the header");
            assert_eq!(args.len(), 1, "entry seeds the counter with the lower bound");
        }
        other => panic!("entry should end in Br, got {other:?}"),
    }
}

#[test]
fn for_in_desugars_onto_counted_loop() {
    let src = "oper main {} [ let names = Sequence [\"a\", \"b\"]; \
               for name in names do [ write_line { message: name }; ]; ];";
    let m = lower_ok(src);
    let f = m.functions.iter().find(|f| f.name == "main").unwrap();

    assert_eq!(f.blocks.len(), 4, "entry + header + body + exit");
    let header = f
        .blocks
        .iter()
        .find(|b| !b.params.is_empty())
        .expect("header block with the counter param");
    assert_eq!(header.params[0].1, ProcType::Integer, "counter is Integer");
    let header_idx = f.blocks.iter().position(|b| b.id == header.id).unwrap();
    assert!(
        f.blocks.iter().enumerate().any(|(idx, b)| idx > header_idx
            && matches!(&b.terminator, Terminator::Br { target, .. } if *target == header.id)),
        "a later block branches back to the header (the back-edge)"
    );

    let calls: Vec<&str> = f
        .blocks
        .iter()
        .flat_map(|b| &b.insts)
        .filter_map(|i| match i {
            Inst::Call { callee, .. } => Some(callee.as_str()),
            _ => None,
        })
        .collect();
    assert!(
        calls.contains(&"coddl_rc_length"),
        "expected a cardinality call, got {calls:?}"
    );
    assert!(
        calls.contains(&"coddl_seq_index"),
        "expected a per-element index call, got {calls:?}"
    );
}

#[test]
fn while_lowers_to_header_cond_back_edge_cfg() {
    let src = "program p;\n\
               oper w {} [ var j := 0; while j < 3 do [ j := j + 1; ]; ];";
    let m = lower_ok(src);
    let f = m.functions.iter().find(|f| f.name == "w").unwrap();
    assert_eq!(f.blocks.len(), 4, "entry + header + body + exit");

    let header = f
        .blocks
        .iter()
        .find(|b| matches!(b.terminator, Terminator::CondBr { .. }))
        .expect("loop header block");
    assert_eq!(header.params.len(), 1, "carried `j` only");
    assert_eq!(header.params[0].1, ProcType::Integer);

    let header_idx = f.blocks.iter().position(|b| b.id == header.id).unwrap();
    assert!(
        f.blocks.iter().enumerate().any(|(idx, b)| idx > header_idx
            && matches!(&b.terminator, Terminator::Br { target, .. } if *target == header.id)),
        "a later block branches back to the header"
    );

    match &f.blocks[0].terminator {
        Terminator::Br { target, args } => {
            assert_eq!(*target, header.id);
            assert_eq!(args.len(), 1, "entry seeds the carried `j`");
        }
        other => panic!("entry should end in Br, got {other:?}"),
    }
}

#[test]
fn do_while_lowers_to_body_header_latch_cfg() {
    let src = "program p;\n\
               oper d {} [ var k := 0; do [ k := k + 1; ] while k < 3; ];";
    let m = lower_ok(src);
    let f = m.functions.iter().find(|f| f.name == "d").unwrap();
    assert_eq!(f.blocks.len(), 4, "entry + body + latch + exit");

    let body = f
        .blocks
        .iter()
        .find(|b| matches!(b.terminator, Terminator::CondBr { .. }))
        .expect("body/test block");
    assert_eq!(body.params.len(), 1, "carried `k`");
    assert_eq!(body.params[0].1, ProcType::Integer);

    let body_idx = f.blocks.iter().position(|b| b.id == body.id).unwrap();
    let latch = f
        .blocks
        .iter()
        .enumerate()
        .find(|(idx, b)| *idx > body_idx
            && matches!(&b.terminator, Terminator::Br { target, .. } if *target == body.id))
        .map(|(_, b)| b)
        .expect("a later block branches back to the body (the latch)");
    assert!(
        latch.insts.is_empty(),
        "the latch is an empty back-edge, got {:?}",
        latch.insts
    );

    match &f.blocks[0].terminator {
        Terminator::Br { target, args } => {
            assert_eq!(*target, body.id, "entry enters the body unconditionally");
            assert_eq!(args.len(), 1, "entry seeds the carried `k`");
        }
        other => panic!("entry should end in Br, got {other:?}"),
    }
}

#[test]
fn integer_literal_decodes_decimal_and_hex() {
    assert_eq!(parse_integer_literal("42"), 42);
    assert_eq!(parse_integer_literal("0x2a"), 42);
    assert_eq!(parse_integer_literal("0b101010"), 42);
    assert_eq!(parse_integer_literal("0o52"), 42);
    assert_eq!(parse_integer_literal("1_000"), 1000);
}

// ── Tuple lit + field access ──────────────────────────

#[test]
fn tuple_let_field_access_threaded_through_call() {
    let src = "oper main {} [ \
               let t = {message: \"hi\"}; \
               write_line{message: t.message}; \
               ];";
    let m = lower_ok(src);
    let main = m.functions.iter().find(|f| f.name == "main").unwrap();
    let insts = &main.blocks[0].insts;

    let tuple_dst = insts
        .iter()
        .find_map(|i| match i {
            Inst::TupleLit { dst, fields, .. } => {
                assert_eq!(fields.len(), 1);
                assert_eq!(fields[0].0, "message");
                Some(*dst)
            }
            _ => None,
        })
        .expect("TupleLit emitted");

    let field_dst = insts
        .iter()
        .find_map(|i| match i {
            Inst::TupleField {
                dst,
                src,
                field_name,
                field_type,
            } if *src == tuple_dst && field_name == "message" => {
                assert_eq!(*field_type, ProcType::Text);
                Some(*dst)
            }
            _ => None,
        })
        .expect("TupleField emitted");

    let arg = insts
        .iter()
        .find_map(|i| match i {
            Inst::Call { callee, args, .. } if callee == "coddl_write_line" => {
                Some(args.first().copied())
            }
            _ => None,
        })
        .expect("write_line call present")
        .expect("write_line call has an arg");
    assert_eq!(arg, field_dst);
}

// ── string interpolation: format + to_text ──────────────────────

#[test]
fn format_lowers_to_concat_with_placeholder_field() {
    let src = "oper main {} [ \
               let name_in = read_line { prompt: \"n: \" }; \
               let message = format { template: f\"Hello, {name}!\", args: { name: name_in } }; \
               write_line { message }; \
               ];";
    let m = lower_ok(src);
    let main = m.functions.iter().find(|f| f.name == "main").unwrap();
    let insts = &main.blocks[0].insts;

    assert!(
        insts.iter().any(|i| matches!(i, Inst::TupleLit { .. })),
        "expected args TupleLit"
    );
    assert!(
        insts.iter().any(
            |i| matches!(i, Inst::TupleField { field_name, .. } if field_name == "name")
        ),
        "expected a TupleField for `name`"
    );
    let text_consts: Vec<String> = insts
        .iter()
        .filter_map(|i| match i {
            Inst::Const {
                value: Const::Text(b),
                ..
            } => Some(String::from_utf8_lossy(b).into_owned()),
            _ => None,
        })
        .collect();
    assert!(text_consts.iter().any(|s| s == "Hello, "), "{text_consts:?}");
    assert!(text_consts.iter().any(|s| s == "!"), "{text_consts:?}");
    let concats = insts
        .iter()
        .filter(|i| matches!(i, Inst::ScalarOp { op: ScalarOp::Concat, .. }))
        .count();
    assert!(concats >= 2, "expected ≥2 concats, got {concats}");
}

#[test]
fn format_integer_placeholder_calls_int_to_text() {
    let src = "oper main {} [ \
               let message = format { template: f\"count: {n}\", args: { n: 7 } }; \
               write_line { message }; \
               ];";
    let m = lower_ok(src);
    let main = m.functions.iter().find(|f| f.name == "main").unwrap();
    assert!(
        main.blocks[0].insts.iter().any(
            |i| matches!(i, Inst::Call { callee, .. } if callee == "coddl_int_to_text")
        ),
        "expected a coddl_int_to_text call for the Integer placeholder"
    );
}

#[test]
fn write_line_format_overload_folds_then_writes() {
    let src = "oper main {} [ \
               write_line { template: f\"Hello, {name}!\", args: { name: \"X\" } }; \
               ];";
    let m = lower_ok(src);
    let main = m.functions.iter().find(|f| f.name == "main").unwrap();
    let insts = &main.blocks[0].insts;

    assert!(
        insts.iter().any(|i| matches!(i, Inst::TupleLit { .. })),
        "expected args TupleLit"
    );
    assert!(
        insts.iter().any(
            |i| matches!(i, Inst::TupleField { field_name, .. } if field_name == "name")
        ),
        "expected a TupleField for `name`"
    );
    let write = insts
        .iter()
        .find(|i| matches!(i, Inst::Call { callee, .. } if callee == "coddl_write_line"))
        .expect("expected a coddl_write_line call");
    assert!(
        matches!(write, Inst::Call { dst: None, return_type: ProcType::Unit, args, .. } if args.len() == 1),
        "write_line call should take the folded Text and return Unit, got {write:?}"
    );
}

#[test]
fn to_text_character_lowers_to_char_to_text() {
    let src = "oper main {} [ let s = to_text { self: 'a' }; write_line { message: s }; ];";
    let m = lower_ok(src);
    let main = m.functions.iter().find(|f| f.name == "main").unwrap();
    assert!(
        main.blocks[0]
            .insts
            .iter()
            .any(|i| matches!(i, Inst::CharToText { .. })),
        "expected CharToText for to_text on a Character"
    );
}

#[test]
fn cardinality_lowers_to_coddl_rc_length_call() {
    let src = "oper main {} [ \
               let xs = Sequence [ \"a\", \"b\", \"c\" ]; \
               let _ns = cardinality { self: xs }; \
               let r = Relation { {a: 1}, {a: 2} }; \
               let _nr = cardinality { self: r }; \
               ];";
    let m = lower_ok(src);
    let main = m.functions.iter().find(|f| f.name == "main").unwrap();
    let calls = main.blocks[0]
        .insts
        .iter()
        .filter(|i| {
            matches!(i, Inst::Call { callee, return_type, .. }
                if callee == "coddl_rc_length"
                    && matches!(return_type, ProcType::Integer))
        })
        .count();
    assert_eq!(
        calls, 2,
        "both cardinality calls lower to coddl_rc_length -> Integer"
    );

    let ext = m
        .functions
        .iter()
        .find(|f| f.linkage_name == "coddl_rc_length")
        .expect("coddl_rc_length extern declared");
    assert!(ext.blocks.is_empty(), "extern is a declaration only");
    assert!(matches!(ext.return_type, ProcType::Integer));
}

#[test]
fn ufcs_method_call_lowers_like_prefix_call() {
    let src = "oper main {} [ \
               let xs = Sequence [ \"a\", \"b\" ]; \
               let _n = xs.cardinality {}; \
               ];";
    let m = lower_ok(src);
    let main = m.functions.iter().find(|f| f.name == "main").unwrap();
    let calls = main.blocks[0]
        .insts
        .iter()
        .filter(|i| matches!(i, Inst::Call { callee, .. } if callee == "coddl_rc_length"))
        .count();
    assert_eq!(calls, 1, "the method call lowers to one coddl_rc_length call");
}

#[test]
fn ufcs_user_oper_method_lowers_to_in_module_call() {
    let src = "oper echo { self: Text } -> Text [ self ]; \
               oper main {} [ let g = \"hi\".echo {}; write_line { message: g }; ];";
    let m = lower_ok(src);
    let main = m.functions.iter().find(|f| f.name == "main").unwrap();
    assert!(
        main.blocks[0].insts.iter().any(|i| matches!(
            i,
            Inst::Call { callee, args, .. } if callee == "echo" && args.len() == 1
        )),
        "expected an in-module `echo` call with the receiver as its sole arg"
    );
}

#[test]
fn return_of_owned_local_retains_before_release() {
    let src = "oper f {} -> Text [ let s = \"a\" || \"b\"; s ]; oper main {} [];";
    let m = lower_ok(src);
    let f = m.functions.iter().find(|f| f.name == "f").unwrap();
    let block = &f.blocks[0];
    let ret = match &block.terminator {
        Terminator::Return(Some(v)) => *v,
        other => panic!("expected Return(Some(_)), got {other:?}"),
    };
    assert!(
        block
            .insts
            .iter()
            .any(|i| matches!(i, Inst::Retain { src } if *src == ret)),
        "the returned owned local must be retained (escaping) before the epilogue release"
    );
}

#[test]
fn owned_local_not_returned_is_released_without_escaping_retain() {
    let src = "oper g {} [ let _s = \"a\" || \"b\"; ];";
    let m = lower_ok(src);
    let g = m.functions.iter().find(|f| f.name == "g").unwrap();
    let insts = &g.blocks[0].insts;
    assert!(
        insts.iter().any(|i| matches!(i, Inst::Release { .. })),
        "the non-returned owned local should be released"
    );
    assert!(
        !insts.iter().any(|i| matches!(i, Inst::Retain { .. })),
        "no escaping retain for a value that isn't returned"
    );
}

#[test]
fn sequence_index_lowers_to_seq_index_attrload_retain() {
    let src = "oper main {} [ \
               let xs = Sequence [ \"a\", \"b\" ]; \
               let _e = xs[1]; \
               ];";
    let m = lower_ok(src);
    let main = m.functions.iter().find(|f| f.name == "main").unwrap();
    let insts = &main.blocks[0].insts;

    let (call_dst, args, ret) = insts
        .iter()
        .find_map(|i| match i {
            Inst::Call {
                dst,
                callee,
                args,
                return_type,
            } if callee == "coddl_seq_index" => {
                Some((dst.unwrap(), args.clone(), return_type.clone()))
            }
            _ => None,
        })
        .expect("coddl_seq_index call emitted");
    assert!(matches!(ret, ProcType::Pointer));
    assert_eq!(args.len(), 2, "seq + index args");

    assert!(
        insts.iter().any(|i| matches!(i,
            Inst::AttrLoad { src, offset: 0, attr_type, .. }
                if *src == call_dst && matches!(attr_type, ProcType::Text))),
        "AttrLoad of the Text element at offset 0 of the record pointer"
    );

    assert!(
        insts.iter().any(|i| matches!(i, Inst::Retain { .. })),
        "Text element retained into an owned copy"
    );

    let ext = m
        .functions
        .iter()
        .find(|f| f.linkage_name == "coddl_seq_index")
        .expect("coddl_seq_index extern declared");
    assert!(ext.blocks.is_empty(), "extern is a declaration only");
    assert!(matches!(ext.return_type, ProcType::Pointer));
    assert_eq!(ext.params.len(), 2);
}

#[test]
fn empty_tuple_lit_emits_inst_with_empty_heading() {
    let src = "oper main {} [ let _u = {}; ];";
    let m = lower_ok(src);
    let main = m.functions.iter().find(|f| f.name == "main").unwrap();
    let inst = main.blocks[0]
        .insts
        .iter()
        .find_map(|i| match i {
            Inst::TupleLit { fields, heading, .. } => Some((fields.clone(), heading.clone())),
            _ => None,
        })
        .expect("TupleLit emitted");
    assert!(inst.0.is_empty());
    assert!(inst.1.is_empty());
}

#[test]
fn tuple_fields_emitted_in_canonical_order() {
    let src = "oper main {} [ let _t = {z: 1, a: 2}; ];";
    let m = lower_ok(src);
    let main = m.functions.iter().find(|f| f.name == "main").unwrap();
    let (fields, heading) = main.blocks[0]
        .insts
        .iter()
        .find_map(|i| match i {
            Inst::TupleLit { fields, heading, .. } => Some((fields.clone(), heading.clone())),
            _ => None,
        })
        .expect("TupleLit emitted");
    let names: Vec<&str> = fields.iter().map(|(n, _)| n.as_str()).collect();
    assert_eq!(names, vec!["a", "z"]);
    let attr_names: Vec<&str> = heading.attrs().iter().map(|(n, _)| n.as_str()).collect();
    assert_eq!(attr_names, vec!["a", "z"]);
}

// ── Where + predicate synthesis ───────────────────────

#[test]
fn where_synthesizes_predicate_function_and_emits_inst_where() {
    let src = "oper main {} [ \
               let r = Relation { {a: 1}, {a: 2} }; \
               let s = r where a = 2; \
               ];";
    let m = lower_ok(src);
    let pred = m
        .functions
        .iter()
        .find(|f| f.name.starts_with("__coddl_where_"))
        .expect("synthesized predicate function");
    assert_eq!(pred.params.len(), 1);
    assert_eq!(pred.return_type, ProcType::Boolean);
    let pred_insts = &pred.blocks[0].insts;
    assert!(
        pred_insts.iter().any(|i| matches!(i, Inst::AttrLoad { .. })),
        "predicate should AttrLoad heading attrs"
    );
    assert!(
        pred_insts.iter().any(|i| matches!(i, Inst::ScalarOp { .. })),
        "predicate body should ScalarOp"
    );
    let main = m.functions.iter().find(|f| f.name == "main").unwrap();
    let main_insts = &main.blocks[0].insts;
    assert!(
        main_insts.iter().any(|i| matches!(i, Inst::Where { .. })),
        "main should emit Inst::Where"
    );
}

#[test]
fn capture_in_where_predicate_diagnoses_t0022() {
    let src = "oper main {} [ \
               let n = 5; \
               let r = Relation { {a: 1}, {a: 2} }; \
               let s = r where a = n; \
               ];";
    let out = lower_source(src);
    assert!(
        out.diagnostics.iter().any(|d| d.code == "T0022"),
        "expected T0022, got {:?}",
        out.diagnostics
    );
    assert!(out.module.is_none(), "module should be None on T0022");
}

#[test]
fn capture_behind_a_nested_where_diagnoses_t0022() {
    let out = lower_source(
        "oper main {} [ \
         let n = 5; \
         let r = Relation { {a: 1}, {a: 2} }; \
         let s = r where cardinality { self: (Relation { {b: 1} } where b = 1) } = n; \
         ];",
    );
    assert!(out.diagnostics.iter().any(|d| d.code == "T0022"), "{:?}", out.diagnostics);
    assert!(out.module.is_none());
}

#[test]
fn a_predicate_releases_its_own_values() {
    // The numbers of the operator's parameters are those of values of the
    // predicate's function too.
    let m = lower_ok(
        "oper f { p: Text, q: Text, s: Text, t: Text, u: Text } -> Text [ \
         let r = Relation { {a: \"x\"} }; \
         let w = r where transaction [ let v = a || \"y\"; v = \"xy\" ]; \
         p ];",
    );
    let body = m
        .functions
        .iter()
        .find(|f| f.name.starts_with("__coddl_where_"))
        .expect("a predicate");
    let concat = body.blocks[0]
        .insts
        .iter()
        .find_map(|i| match i {
            Inst::ScalarOp { dst, op: ScalarOp::Concat, .. } => Some(*dst),
            _ => None,
        })
        .expect("a concatenation");
    assert!(concat.0 < 5);
    assert!(body.blocks[0]
        .insts
        .iter()
        .any(|i| matches!(i, Inst::Release { src } if *src == concat)));
}

// ── extract ───────────────────────────────────────────

#[test]
fn extract_on_temporary_defers_source_release_to_epilogue() {
    let src = "oper main {} [ \
               let r = Relation { {a: 1}, {a: 2} }; \
               let t = extract (r where a = 2); \
               ];";
    let m = lower_ok(src);
    let main = m.functions.iter().find(|f| f.name == "main").unwrap();
    let insts = &main.blocks[0].insts;
    let extract_idx = insts
        .iter()
        .position(|i| matches!(i, Inst::Extract { .. }))
        .expect("Inst::Extract emitted");
    let extract_src = match &insts[extract_idx] {
        Inst::Extract { src, .. } => *src,
        _ => unreachable!(),
    };
    let release_idx = insts
        .iter()
        .position(|i| matches!(i, Inst::Release { src } if *src == extract_src))
        .expect("extract source released at the function epilogue");
    assert!(
        release_idx > extract_idx + 1,
        "source release should be deferred to the epilogue; extract@{extract_idx} release@{release_idx}"
    );
}

#[test]
fn extract_on_let_bound_does_not_release_source() {
    let src = "oper main {} [ \
               let r = Relation { {a: 1} }; \
               let t = extract r; \
               ];";
    let m = lower_ok(src);
    let main = m.functions.iter().find(|f| f.name == "main").unwrap();
    let insts = &main.blocks[0].insts;
    let extract_idx = insts
        .iter()
        .position(|i| matches!(i, Inst::Extract { .. }))
        .unwrap();
    let extract_src = match &insts[extract_idx] {
        Inst::Extract { src, .. } => *src,
        _ => unreachable!(),
    };
    let count = insts
        .iter()
        .filter(|i| matches!(i, Inst::Release { src } if *src == extract_src))
        .count();
    assert_eq!(count, 1, "let-bound source should see exactly one Release (at scope exit)");
}

// ── what is refused ───────────────────────────────────

/// Lowers with a writer that can write only what `can` accepts.
fn lower_with_writer(src: &str, plan: &Plan, can: impl Fn(&SqlRequest) -> bool) -> LowerOutput {
    let mut requests: Vec<SqlRequest> = vec![];
    loop {
        let answers = requests
            .iter()
            .map(|r| if can(r) { answer(r) } else { None })
            .collect();
        match lower_with_plan(Reader::new(src).program(), Some(plan), answers) {
            Lowered::Done(out) => return out,
            Lowered::Stopped(Stop::Ask(request)) => requests.push(request),
            Lowered::Stopped(why) => panic!("stopped: {why:?}"),
        }
    }
}

fn writing(statement: &str) -> String {
    format!(
        "program p;\ndatabase greetings;\n\
         public relvar Greetings {{ id: Integer, message: Text }} key {{ id }};\n\
         private relvar Local {{ id: Integer, message: Text }} key {{ id }};\n\
         oper main {{}} [ transaction [ {statement} ]; ];"
    )
}

fn the_error(out: LowerOutput) -> (String, String) {
    assert!(out.module.is_none());
    assert_eq!(out.diagnostics.len(), 1, "{:?}", out.diagnostics);
    let d = &out.diagnostics[0];
    assert_eq!(d.severity, Severity::Error);
    (d.code.clone(), d.message.clone())
}

#[test]
fn writing_to_a_view_is_refused() {
    for statement in [
        "truncate Greetings;",
        "delete Greetings where id = 1;",
        "insert Greetings { {id: 7, message: \"x\"} };",
        "update Greetings where id = 1 { message: \"hi\" };",
        "Greetings := Local;",
    ] {
        let out = lower_source_with(&writing(statement), &greetings_plan());
        let (code, message) = the_error(out);
        assert_eq!(code, "T0050");
        assert_eq!(
            message,
            "cannot assign to public relvar `Greetings`: it maps to a non-writable view"
        );
    }
}

#[test]
fn writing_needs_a_database_that_takes_statements() {
    let mut plan = greetings_rw_plan();
    plan.backend_kind = BackendKind::Other("postgres".to_string());
    let (code, message) = the_error(lower_source_with(&writing("truncate Greetings;"), &plan));
    assert_eq!(code, "T0049");
    assert_eq!(
        message,
        "cannot assign to public relvar `Greetings`: backend does not support SQL writes"
    );
}

#[test]
fn writes_without_a_statement_are_refused() {
    let no_assign = |r: &SqlRequest| !matches!(r, SqlRequest::Assign { .. });
    let cases = [
        (
            "delete Greetings where id = 1;",
            "cannot delete from public relvar `Greetings`: predicate is not a recognized surgical shape",
        ),
        (
            "update Greetings where id = 1 { message: \"hi\" };",
            "cannot update public relvar `Greetings`: not a recognized surgical shape",
        ),
        (
            "Greetings := Greetings where id = 1;",
            "assignment to public relvar `Greetings` is self-referential but not a recognized surgical shape",
        ),
    ];
    for (statement, expected) in cases {
        let out = lower_with_writer(&writing(statement), &greetings_rw_plan(), no_assign);
        let (code, message) = the_error(out);
        assert_eq!(code, "T0049");
        assert_eq!(message, expected);
    }
    let nothing = |_: &SqlRequest| false;
    let out = lower_with_writer(&writing("Greetings := Local;"), &greetings_rw_plan(), nothing);
    let (code, message) = the_error(out);
    assert_eq!(code, "T0049");
    assert_eq!(
        message,
        "assignment to public relvar `Greetings` is not a supported write shape"
    );
}

#[test]
fn text_initialized_on_both_branches_is_refused() {
    let src = "program p;\n\
               oper main {} [ var x; if true then [ x := \"a\"; ] else [ x := \"b\"; ]; ];";
    let (code, message) = the_error(lower_source(src));
    assert_eq!(code, "T0076");
    assert_eq!(
        message,
        "initializing the heap-typed variable `x` on both branches of an `if` is not yet lowered"
    );
}

// ── stopping ──────────────────────────────────────────

#[test]
fn lowering_stops_for_the_statement_it_needs() {
    let plan = greetings_plan();
    let asked = |answers| {
        lower_with_plan(Reader::new(HELLO_WORLD_DB).program(), Some(&plan), answers)
    };
    match asked(vec![]) {
        Lowered::Stopped(Stop::Ask(SqlRequest::Select(e))) => assert_eq!(
            e.render(),
            "Restrict { id = 1 }\n  RelvarRef Greetings { db: greetings, table: greetings }"
        ),
        other => panic!("{other:?}"),
    }
    // Without a statement the whole relvar would be pulled.
    match asked(vec![None]) {
        Lowered::Stopped(why) => {
            assert_eq!(why, Stop::FullRelvarPull("Greetings".to_string()))
        }
        other => panic!("{other:?}"),
    }
}

#[test]
fn literals_without_machine_code_stop_lowering() {
    let span = Span::synthetic(0);
    let literal = Expr {
        span,
        kind: ExprKind::Literal(Literal::Other("1.5".to_string())),
    };
    let main = OperDecl {
        name: "main".to_string(),
        params: vec![],
        return_type: None,
        body: Some(Block {
            statements: vec![],
            tail: Some(Box::new(literal)),
        }),
    };
    let program = CheckedProgram {
        items: vec![Item::Oper(main)],
        diagnostics: vec![],
        relvars: vec![],
    };
    match lower(program) {
        Lowered::Stopped(why) => assert_eq!(why, Stop::NotLowered),
        other => panic!("{other:?}"),
    }
}

// ── well-formed modules ───────────────────────────────

/// Checks that blocks are numbered once each, the entry first and without
/// parameters, each block behind one that leads to it; that no branch leads to the
/// entry, and a conditional one to later blocks alone; that branches hand over what
/// blocks take; that no value is assigned twice; and that what is read is a parameter
/// of the function or assigned.
fn assert_well_formed(m: &Module) {
    let mut declared: Vec<&str> = m
        .functions
        .iter()
        .filter(|f| f.is_extern())
        .map(|f| f.name.as_str())
        .collect();
    let count = declared.len();
    declared.sort();
    declared.dedup();
    assert_eq!(declared.len(), count);
    for (i, p) in m.plans.iter().enumerate() {
        assert_eq!(p.plan_id as usize, i);
        assert!((p.result_heading_id.0 as usize) < m.headings.len());
    }
    for f in &m.functions {
        let mut ids: Vec<u32> = f.blocks.iter().map(|b| b.id.0).collect();
        let entry = ids.first().copied();
        ids.sort();
        assert_eq!(ids, (0..f.blocks.len() as u32).collect::<Vec<_>>());
        if !f.blocks.is_empty() {
            assert_eq!(entry, Some(0));
            assert!(f.blocks[0].params.is_empty());
        }
        let mut assigned: Vec<String> = vec![];
        let mut read: Vec<String> = vec![];
        let mut edges = vec![];
        for (i, b) in f.blocks.iter().enumerate() {
            if i > 0 {
                assert!(edges.iter().any(|(to, _)| *to == b.id), "{}", m.to_string());
            }
            assigned.extend(b.params.iter().map(|(v, _)| v.to_string()));
            for inst in &b.insts {
                let text = inst.to_string();
                let mut rest = text.as_str();
                if let Some((dst, after)) = text.split_once(" = ") {
                    if dst.starts_with('%') && !dst.contains(' ') {
                        assigned.push(dst.to_string());
                        rest = after;
                    }
                }
                if !matches!(inst, Inst::Const { .. }) {
                    read.extend(values_in(rest));
                }
                if let Inst::Call { callee, .. } = inst {
                    assert!(m.functions.iter().any(|g| g.linkage_name == *callee));
                }
            }
            match &b.terminator {
                Terminator::CondBr { cond, then_block, else_block } => {
                    read.push(cond.to_string());
                    let begun = &f.blocks[..=i];
                    assert!(begun.iter().all(|b| b.id != *then_block && b.id != *else_block));
                    edges.push((*then_block, 0));
                    edges.push((*else_block, 0));
                }
                Terminator::Br { target, args } => {
                    read.extend(args.iter().map(|v| v.to_string()));
                    edges.push((*target, args.len()));
                }
                Terminator::Return(Some(v)) => read.push(v.to_string()),
                _ => {}
            }
        }
        for (to, n) in edges {
            assert_ne!(to.0, 0);
            let target = f.blocks.iter().find(|b| b.id == to).expect("a target");
            assert_eq!(target.params.len(), n);
        }
        let mut once = assigned.clone();
        once.sort();
        once.dedup();
        assert_eq!(once.len(), assigned.len());
        assigned.extend((0..f.params.len()).map(|i| format!("%{i}")));
        for v in read {
            assert!(assigned.contains(&v), "{v} in {}", m.to_string());
        }
    }
}

/// The values that stand in a text.
fn values_in(text: &str) -> Vec<String> {
    text.split('%')
        .skip(1)
        .map(|rest| rest.chars().take_while(|c| c.is_ascii_digit()).collect::<String>())
        .filter(|digits| !digits.is_empty())
        .map(|digits| format!("%{digits}"))
        .collect()
}

#[test]
fn modules_are_well_formed() {
    for src in [
        HELLO_WORLD,
        "program p; oper main {} [ var x; if true then [ x := 1; ] else [ x := 2; ]; let _y = x; ];",
        "program p; oper w {} [ var j := 0; while j < 3 do [ j := j + 1; ]; ];",
        "program p; oper d {} [ var k := 0; do [ k := k + 1; ] while k < 3; ];",
        "oper main {} [ let names = Sequence [\"a\", \"b\"]; \
         for name in names do [ write_line { message: name }; ]; ];",
        "program p; oper main {} [ var t := 0; for i := 1 to 2 do [ \
         var j := 0; while j < i do [ if j = 1 then [ t := t + j; ]; j := j + 1; ]; ]; ];",
        "program p; private relvar R { a: Integer } key { a }; \
         oper main {} [ update R where a = 1 { a: a + 1 }; ];",
        "oper add { a: Integer, b: Integer } -> Integer [ let s = a + b; s ]; \
         oper main {} [ let n = add { a: 1, b: 2 }; ];",
        "oper main {} [ let n = if true then [ 1 ] else [ 2 ]; let _m = n; ];",
    ] {
        assert_well_formed(&lower_ok(src));
    }
    let plan = greetings_rw_plan();
    assert_well_formed(&lower_ok_with_plan(HELLO_WORLD_DB, &plan));
    for statement in [
        "truncate Greetings;",
        "Greetings := Local;",
        "Local := Greetings where id = 1;",
    ] {
        assert_well_formed(&lower_ok_with_plan(&writing(statement), &plan));
    }
}

#[test]
fn main_starts_and_ends_the_runtime() {
    let is_call = |i: &Inst, name: &str| matches!(i, Inst::Call { callee, .. } if callee == name);
    let src = "program p;\ndatabase greetings;\n\
               public relvar Greetings { id: Integer, message: Text } key { id };\n\
               private relvar Local { id: Integer, message: Text } key { id };\n\
               oper main {} [ \
               Local := transaction [ Greetings where id = 1 ]; \
               if true then [ write_line { message: \"a\" }; ]; ];";
    let m = lower_ok_with_plan(src, &greetings_plan());
    let main = m.functions.iter().find(|f| f.name == "main").expect("main");
    assert!(main.blocks.len() > 1);
    let first = &main.blocks[0].insts;
    assert!(is_call(&first[0], "coddl_runtime_init"));
    assert!(matches!(first[1], Inst::RegisterDatabase));
    assert!(matches!(first[2], Inst::RegisterPlan { plan_id: 0 }));
    assert_eq!(m.plans.len(), 1);
    assert!(matches!(&first[3], Inst::PrivateRelvarSlotInit { name, .. } if name == "Local"));
    let last = main.blocks.last().expect("a block");
    let n = last.insts.len();
    assert!(matches!(&last.insts[n - 2], Inst::RelvarSlotRelease { name } if name == "Local"));
    assert!(is_call(&last.insts[n - 1], "coddl_runtime_shutdown"));
    assert!(matches!(last.terminator, Terminator::Return(None)));
}

#[test]
fn writes_reach_the_database() {
    for statement in [
        "delete Greetings where id = 1;",
        "update Greetings where id = 1 { message: \"hi\" };",
        "Greetings := Local;",
    ] {
        let m = lower_ok_with_plan(&writing(statement), &greetings_rw_plan());
        let written = m
            .functions
            .iter()
            .flat_map(|f| &f.blocks)
            .flat_map(|b| &b.insts)
            .any(|i| matches!(i, Inst::Dml { .. } | Inst::InsertFrom { .. }));
        assert!(written, "{}", m.to_string());
    }
}

#[test]
fn private_slots_are_in_name_order() {
    let m = lower_ok(
        "program p; private relvar Zeta { a: Integer } key { a }; \
         private relvar Unused { a: Integer } key { a }; \
         private relvar Alpha { a: Integer } key { a }; \
         oper main {} [ Zeta := Alpha; ];",
    );
    let names: Vec<&str> = m.private_relvar_slots.iter().map(|s| s.0.as_str()).collect();
    assert_eq!(names, vec!["Alpha", "Zeta"]);
}

#[test]
fn transactions_without_a_plan_are_not_bracketed() {
    let is_bracket = |name: &str| name == "coddl_begin_tx" || name == "coddl_commit_tx";
    let m = lower_ok("oper main {} [ let ok = transaction [ \"ok\" ]; write_line{message: ok}; ];");
    assert!(m.functions.iter().all(|f| !is_bracket(&f.linkage_name)));
    assert!(m.public_relvars.is_empty() && m.plans.is_empty());
    let m = lower_ok_with_plan(HELLO_WORLD_DB, &greetings_plan());
    let calls: Vec<&str> = m
        .functions
        .iter()
        .flat_map(|f| &f.blocks)
        .flat_map(|b| &b.insts)
        .filter_map(|i| match i {
            Inst::Call { callee, .. } if is_bracket(callee) => Some(callee.as_str()),
            _ => None,
        })
        .collect();
    assert_eq!(calls, vec!["coddl_begin_tx", "coddl_commit_tx"]);
}

#[test]
fn each_query_is_explained() {
    let src = "program p;\ndatabase greetings;\n\
               public relvar Greetings { id: Integer, message: Text } key { id };\n\
               oper main {} [ \
               let a = transaction [ extract (Greetings where id = 1) ]; \
               let b = transaction [ extract (Greetings where id = 1) ]; \
               let c = transaction [ extract (Greetings where id > 1) ]; ];";
    let out = explain_source(src, &greetings_plan());
    let m = out.module.expect("a module");
    let queried: Vec<&str> = m
        .functions
        .iter()
        .flat_map(|f| &f.blocks)
        .flat_map(|b| &b.insts)
        .filter_map(|i| match i {
            Inst::Query { plan_id, .. } => Some(m.plans[*plan_id as usize].sql.as_str()),
            _ => None,
        })
        .collect();
    let told: Vec<&str> = out.relir.iter().map(|e| e.sql.as_str()).collect();
    assert_eq!(queried, told);
    assert_eq!(told.len(), 3);
}

#[test]
fn programs_without_a_database_ask_it_nothing() {
    let src = writing("Local := Greetings;");
    let mut plan = greetings_rw_plan();
    plan.backend_kind = BackendKind::Unknown;
    let m = lower_ok_with_plan(&src, &plan);
    assert!(m.plans.is_empty());
    let insts = || m.functions.iter().flat_map(|f| &f.blocks).flat_map(|b| &b.insts);
    assert!(insts().all(|i| !matches!(i, Inst::Query { .. } | Inst::RegisterDatabase)));
    assert!(insts().any(|i| matches!(i, Inst::RelvarRead { .. })));
}

#[test]
fn explaining_makes_the_same_module() {
    let plan = greetings_plan();
    let lowered = lower_source_with(HELLO_WORLD_DB, &plan);
    let explained = explain_source(HELLO_WORLD_DB, &plan);
    assert_eq!(
        lowered.module.expect("a module").to_string(),
        explained.module.expect("a module").to_string()
    );
    assert_eq!(lowered.diagnostics, explained.diagnostics);
    assert_eq!(lowered.relir.len(), 0);
    assert_eq!(explained.relir.len(), 1);
}

#[test]
fn a_statement_is_registered_once() {
    let src = "program p;\ndatabase greetings;\n\
               public relvar Greetings { id: Integer, message: Text } key { id };\n\
               oper main {} [ \
               let a = transaction [ extract (Greetings where id = 1) ]; \
               let b = transaction [ extract (Greetings where id = 1) ]; \
               let c = transaction [ extract (Greetings where id > 1) ]; ];";
    let m = lower_ok_with_plan(src, &greetings_plan());
    let plans: Vec<u32> = m
        .functions
        .iter()
        .flat_map(|f| &f.blocks)
        .flat_map(|b| &b.insts)
        .filter_map(|i| match i {
            Inst::Query { plan_id, .. } => Some(*plan_id),
            _ => None,
        })
        .collect();
    assert_eq!(plans, vec![0, 0, 1]);
    assert_eq!(m.plans.len(), 2);
    assert!(m.plans[0].sql != m.plans[1].sql);
}
