//! The DEML grammar and tokenizer.
//!
//! A document is a sequence of lines. Blank lines and comment lines
//! (first significant character `#`) are insignificant. A line consisting
//! of one or more `-` characters is a tier delimiter. Every other line is
//! a node declaration:
//!
//! ```text
//! name (< n1 | n2 | ...)* (> n1 | n2 | ...)* (: command)?
//! ```
//!
//! beginning with the declared task's name, followed by any number of
//! relation clauses — `<` introduces a pipe-separated list of names the
//! task runs after (its precursors), `>` a list of names that run after it
//! (its postcursors) — and optionally `:` followed by the command body,
//! taken verbatim to the end of the line and trimmed of surrounding
//! whitespace. Names are runs of ASCII letters, digits and underscores.
//! Spaces, tabs and carriage returns between tokens are insignificant.
//! A line that fits none of these shapes fails with a syntax error
//! carrying the line number and the offending text.

use vstd::prelude::*;

use crate::errors::CompileError;
use crate::errors::ErrModel;

verus! {

// ---------------------------------------------------------------------------
// Character classes
// ---------------------------------------------------------------------------

/// Characters a task name may consist of.
pub open spec fn is_ident_char(c: char) -> bool {
    ('a' as u32) <= (c as u32) && (c as u32) <= ('z' as u32) || ('A' as u32) <= (c as u32) && (
    c as u32) <= ('Z' as u32) || ('0' as u32) <= (c as u32) && (c as u32) <= ('9' as u32) || c
        == '_'
}

/// In-line whitespace (a carriage return before a line feed counts too,
/// so documents with CRLF line ends parse the same way).
pub open spec fn is_space_char(c: char) -> bool {
    c == ' ' || c == '\t' || c == '\r'
}

// ---------------------------------------------------------------------------
// Scanning helpers
// ---------------------------------------------------------------------------

/// Position of the next line feed at or after `i`, or the text's end.
pub open spec fn line_end_at(s: Seq<char>, i: int) -> int
    decreases s.len() - i,
{
    if i < 0 || i >= s.len() {
        s.len() as int
    } else if s[i] == '\n' {
        i
    } else {
        line_end_at(s, i + 1)
    }
}

pub proof fn lemma_line_end_at(s: Seq<char>, i: int)
    requires
        0 <= i <= s.len(),
    ensures
        i <= line_end_at(s, i) <= s.len(),
        line_end_at(s, i) < s.len() ==> s[line_end_at(s, i)] == '\n',
    decreases s.len() - i,
{
    if i < s.len() && s[i] != '\n' {
        lemma_line_end_at(s, i + 1);
    }
}

/// First position in `[i, b)` that holds a non-space character, or `b`;
/// `i` itself when `i` is not below `b`.
pub open spec fn skip_spaces(s: Seq<char>, i: int, b: int) -> int
    decreases b - i,
{
    if i >= b || i < 0 {
        i
    } else if is_space_char(s[i]) {
        skip_spaces(s, i + 1, b)
    } else {
        i
    }
}

pub proof fn lemma_skip_spaces(s: Seq<char>, i: int, b: int)
    ensures
        i <= skip_spaces(s, i, b),
        i <= b ==> skip_spaces(s, i, b) <= b,
        0 <= i ==> skip_spaces(s, i, b) < b ==> !is_space_char(s[skip_spaces(s, i, b)]),
    decreases b - i,
{
    if i < b && 0 <= i && is_space_char(s[i]) {
        lemma_skip_spaces(s, i + 1, b);
    }
}

/// End of the region `[a, b)` once trailing spaces are dropped: the least
/// `r` with `a <= r <= b` such that every character of `[r, b)` is a
/// space and `s[r - 1]` (if `r > a`) is not.
pub open spec fn rtrim(s: Seq<char>, a: int, b: int) -> int
    decreases b - a,
{
    if b <= a || b > s.len() || b < 1 {
        a
    } else if is_space_char(s[b - 1]) {
        rtrim(s, a, b - 1)
    } else {
        b
    }
}

pub proof fn lemma_rtrim(s: Seq<char>, a: int, b: int)
    requires
        0 <= a <= b <= s.len(),
    ensures
        a <= rtrim(s, a, b) <= b,
        rtrim(s, a, b) > a ==> !is_space_char(s[rtrim(s, a, b) - 1]),
    decreases b - a,
{
    if a < b && is_space_char(s[b - 1]) {
        lemma_rtrim(s, a, b - 1);
    }
}

/// End of the run of name characters starting at `i` within `[i, b)`.
pub open spec fn ident_end(s: Seq<char>, i: int, b: int) -> int
    decreases b - i,
{
    if i >= b || i < 0 {
        i
    } else if is_ident_char(s[i]) {
        ident_end(s, i + 1, b)
    } else {
        i
    }
}

pub proof fn lemma_ident_end(s: Seq<char>, i: int, b: int)
    ensures
        i <= ident_end(s, i, b),
        i <= b ==> ident_end(s, i, b) <= b,
    decreases b - i,
{
    if i < b && 0 <= i && is_ident_char(s[i]) {
        lemma_ident_end(s, i + 1, b);
    }
}

/// A tier delimiter: a non-empty run of `-` characters filling `[a, b)`.
pub open spec fn is_shelf_region(s: Seq<char>, a: int, b: int) -> bool {
    a < b && (forall|k: int| a <= k < b ==> s[k] == '-')
}

// ---------------------------------------------------------------------------
// Structural items
// ---------------------------------------------------------------------------

/// Model of one node declaration, exactly as written: relation lists in
/// document order, duplicates not yet collapsed.
#[verifier::ext_equal]
pub struct DeclModel {
    pub name: Seq<char>,
    pub before: Seq<Seq<char>>,
    pub after: Seq<Seq<char>>,
    pub command: Option<Seq<char>>,
}

/// Model of one structural item of the document.
#[verifier::ext_equal]
pub enum ItemModel {
    Node(DeclModel),
    Shelf,
}

/// One node declaration as written: the declared name, the names of its
/// before- and after-lists in document order (duplicates still present),
/// and the command body if one was given.
pub struct NodeDecl {
    pub name: String,
    pub before: Vec<String>,
    pub after: Vec<String>,
    pub command: Option<String>,
}

impl View for NodeDecl {
    type V = DeclModel;

    open spec fn view(&self) -> DeclModel {
        DeclModel {
            name: self.name@,
            before: self.before.deep_view(),
            after: self.after.deep_view(),
            command: match self.command {
                Option::None => Option::None,
                Option::Some(c) => Option::Some(c@),
            },
        }
    }
}

/// One structural item of the document: a node declaration or a tier
/// delimiter line.
pub enum StructuralItem {
    Node(NodeDecl),
    Shelf,
}

impl View for StructuralItem {
    type V = ItemModel;

    open spec fn view(&self) -> ItemModel {
        match self {
            StructuralItem::Node(d) => ItemModel::Node(d@),
            StructuralItem::Shelf => ItemModel::Shelf,
        }
    }
}

/// The models of an item sequence, in order.
pub open spec fn items_model(items: Seq<StructuralItem>) -> Seq<ItemModel> {
    items.map_values(|it: StructuralItem| it@)
}

// ---------------------------------------------------------------------------
// Declaration grammar
// ---------------------------------------------------------------------------

/// Parses a pipe-separated name list inside `[i, b)`: at least one name,
/// names separated by `|`. Returns the names and the position just past
/// the list (spaces after the last name consumed), or `None` when no
/// well-formed list starts at `i`.
pub open spec fn parse_name_list(s: Seq<char>, i: int, b: int) -> Option<(Seq<Seq<char>>, int)>
    decreases b - i,
    via parse_name_list_decreases
{
    let j = skip_spaces(s, i, b);
    let k = ident_end(s, j, b);
    if j < 0 || k <= j {
        Option::None
    } else {
        let name = s.subrange(j, k);
        let m = skip_spaces(s, k, b);
        if m < b && s[m] == '|' {
            match parse_name_list(s, m + 1, b) {
                Option::None => Option::None,
                Option::Some((rest, e)) => Option::Some((seq![name] + rest, e)),
            }
        } else {
            Option::Some((seq![name], m))
        }
    }
}

#[via_fn]
proof fn parse_name_list_decreases(s: Seq<char>, i: int, b: int) {
    let j = skip_spaces(s, i, b);
    let k = ident_end(s, j, b);
    lemma_skip_spaces(s, i, b);
    lemma_ident_end(s, j, b);
    lemma_skip_spaces(s, k, b);
}

/// Bounds of a successful name-list parse: the end position lies strictly
/// past `i` and no further than `b`, and at least one name was read.
pub proof fn lemma_parse_name_list_bounds(s: Seq<char>, i: int, b: int)
    ensures
        parse_name_list(s, i, b) matches Option::Some((names, e)) ==> i < e <= b && names.len()
            >= 1,
    decreases b - i,
{
    lemma_skip_spaces(s, i, b);
    let j = skip_spaces(s, i, b);
    let k = ident_end(s, j, b);
    lemma_ident_end(s, j, b);
    lemma_skip_spaces(s, k, b);
    if !(j < 0 || k <= j) {
        let m = skip_spaces(s, k, b);
        if m < b && s[m] == '|' {
            lemma_parse_name_list_bounds(s, m + 1, b);
        }
    }
}

/// Parses everything of a declaration after the declared name: any number
/// of `<` and `>` relation clauses, then an optional `: command` tail.
/// Returns the before-names, the after-names (each in document order) and
/// the command body, or `None` when the region does not match.
pub open spec fn parse_rel_lists(s: Seq<char>, i: int, b: int) -> Option<
    (Seq<Seq<char>>, Seq<Seq<char>>, Option<Seq<char>>),
>
    decreases b - i,
    via parse_rel_lists_decreases
{
    let j = skip_spaces(s, i, b);
    if j >= b {
        Option::Some((Seq::empty(), Seq::empty(), Option::None))
    } else if j < 0 {
        Option::None
    } else if s[j] == '<' {
        match parse_name_list(s, j + 1, b) {
            Option::None => Option::None,
            Option::Some((names, e)) => match parse_rel_lists(s, e, b) {
                Option::None => Option::None,
                Option::Some((bef, aft, cmd)) => Option::Some((names + bef, aft, cmd)),
            },
        }
    } else if s[j] == '>' {
        match parse_name_list(s, j + 1, b) {
            Option::None => Option::None,
            Option::Some((names, e)) => match parse_rel_lists(s, e, b) {
                Option::None => Option::None,
                Option::Some((bef, aft, cmd)) => Option::Some((bef, names + aft, cmd)),
            },
        }
    } else if s[j] == ':' {
        let c = skip_spaces(s, j + 1, b);
        if c >= b {
            Option::Some((Seq::empty(), Seq::empty(), Option::None))
        } else {
            Option::Some((Seq::empty(), Seq::empty(), Option::Some(s.subrange(c, b))))
        }
    } else {
        Option::None
    }
}

#[via_fn]
proof fn parse_rel_lists_decreases(s: Seq<char>, i: int, b: int) {
    lemma_skip_spaces(s, i, b);
    let j = skip_spaces(s, i, b);
    if 0 <= j < b && (s[j] == '<' || s[j] == '>') {
        lemma_parse_name_list_bounds(s, j + 1, b);
    }
}

/// Parses one whole declaration filling the trimmed region `[a, b)`.
pub open spec fn parse_decl(s: Seq<char>, a: int, b: int) -> Option<DeclModel> {
    let k = ident_end(s, a, b);
    if k <= a {
        Option::None
    } else {
        match parse_rel_lists(s, k, b) {
            Option::None => Option::None,
            Option::Some((bef, aft, cmd)) => Option::Some(
                DeclModel { name: s.subrange(a, k), before: bef, after: aft, command: cmd },
            ),
        }
    }
}

// ---------------------------------------------------------------------------
// Lines and the whole document
// ---------------------------------------------------------------------------

/// Classifies the line occupying `[a, e)` (line number `line`, 1-based):
/// no item for blank and comment lines, a shelf item for a delimiter
/// line, a node item for a declaration, and a syntax error carrying the
/// line's trimmed text when nothing matches.
pub open spec fn classify_line(s: Seq<char>, a: int, e: int, line: nat) -> Result<
    Option<ItemModel>,
    ErrModel,
> {
    let a2 = skip_spaces(s, a, e);
    let b2 = rtrim(s, a2, e);
    if a2 >= b2 {
        Result::Ok(Option::None)
    } else if s[a2] == '#' {
        Result::Ok(Option::None)
    } else if is_shelf_region(s, a2, b2) {
        Result::Ok(Option::Some(ItemModel::Shelf))
    } else {
        match parse_decl(s, a2, b2) {
            Option::None => Result::Err(
                ErrModel::Syntax { line: line, text: s.subrange(a2, b2) },
            ),
            Option::Some(d) => Result::Ok(Option::Some(ItemModel::Node(d))),
        }
    }
}

/// Parses the document from position `i` (start of line number `line`)
/// to the end: the ordered structural items, or the first syntax error.
pub open spec fn parse_doc_from(s: Seq<char>, i: int, line: nat) -> Result<Seq<ItemModel>, ErrModel>
    decreases s.len() - i,
    via parse_doc_from_decreases
{
    if i < 0 || i >= s.len() {
        Result::Ok(Seq::empty())
    } else {
        let e = line_end_at(s, i);
        match classify_line(s, i, e, line) {
            Result::Err(er) => Result::Err(er),
            Result::Ok(opt) => {
                let rest = if e >= s.len() {
                    Result::<Seq<ItemModel>, ErrModel>::Ok(Seq::empty())
                } else {
                    parse_doc_from(s, e + 1, (line + 1) as nat)
                };
                match rest {
                    Result::Err(er) => Result::Err(er),
                    Result::Ok(items) => Result::Ok(
                        match opt {
                            Option::None => items,
                            Option::Some(it) => seq![it] + items,
                        },
                    ),
                }
            },
        }
    }
}

#[via_fn]
proof fn parse_doc_from_decreases(s: Seq<char>, i: int, line: nat) {
    if 0 <= i < s.len() {
        lemma_line_end_at(s, i);
    }
}

/// Parses a whole document into its ordered structural items, or the
/// first syntax error.
pub open spec fn parse_doc(s: Seq<char>) -> Result<Seq<ItemModel>, ErrModel> {
    parse_doc_from(s, 0, 1)
}

pub proof fn lemma_parse_doc_from_len(s: Seq<char>, i: int, line: nat)
    requires
        0 <= i <= s.len() + 1,
    ensures
        parse_doc_from(s, i, line) matches Result::Ok(items) ==> items.len() <= s.len() - i + 1,
    decreases s.len() - i,
{
    if 0 <= i < s.len() {
        lemma_line_end_at(s, i);
        let e = line_end_at(s, i);
        if e < s.len() {
            lemma_parse_doc_from_len(s, e + 1, (line + 1) as nat);
        }
    }
}

/// A document of `n` characters yields at most `n + 1` items: every line
/// past the first costs at least one line feed.
pub proof fn lemma_parse_doc_len(s: Seq<char>)
    ensures
        parse_doc(s) matches Result::Ok(items) ==> items.len() <= s.len() + 1,
{
    lemma_parse_doc_from_len(s, 0, 1);
}

// ---------------------------------------------------------------------------
// The tokenizer
// ---------------------------------------------------------------------------

fn is_space_x(c: char) -> (r: bool)
    ensures
        r == is_space_char(c),
{
    c == ' ' || c == '\t' || c == '\r'
}

fn is_ident_x(c: char) -> (r: bool)
    ensures
        r == is_ident_char(c),
{
    let u = c as u32;
    (97 <= u && u <= 122) || (65 <= u && u <= 90) || (48 <= u && u <= 57) || c == '_'
}

fn scan_line_end(s: &str, i: usize, n: usize) -> (r: usize)
    requires
        n == s@.len(),
        i <= n,
    ensures
        r as int == line_end_at(s@, i as int),
        i <= r <= n,
{
    let mut j = i;
    while j < n
        invariant
            i <= j <= n,
            n == s@.len(),
            line_end_at(s@, i as int) == line_end_at(s@, j as int),
        decreases n - j,
    {
        if s.get_char(j) == '\n' {
            proof {
                lemma_line_end_at(s@, i as int);
            }
            return j;
        }
        assert(line_end_at(s@, j as int) == line_end_at(s@, j + 1 as int));
        j = j + 1;
    }
    j
}

fn skip_spaces_x(s: &str, i: usize, b: usize) -> (r: usize)
    requires
        i <= b <= s@.len(),
    ensures
        r as int == skip_spaces(s@, i as int, b as int),
        i <= r <= b,
{
    let mut j = i;
    while j < b
        invariant
            i <= j <= b,
            b <= s@.len(),
            skip_spaces(s@, i as int, b as int) == skip_spaces(s@, j as int, b as int),
        decreases b - j,
    {
        if !is_space_x(s.get_char(j)) {
            return j;
        }
        assert(skip_spaces(s@, j as int, b as int) == skip_spaces(s@, j + 1 as int, b as int));
        j = j + 1;
    }
    j
}

fn rtrim_x(s: &str, a: usize, b: usize) -> (r: usize)
    requires
        a <= b <= s@.len(),
    ensures
        r as int == rtrim(s@, a as int, b as int),
        a <= r <= b,
{
    let mut j = b;
    while j > a
        invariant
            a <= j <= b,
            b <= s@.len(),
            rtrim(s@, a as int, b as int) == rtrim(s@, a as int, j as int),
        decreases j,
    {
        if !is_space_x(s.get_char(j - 1)) {
            return j;
        }
        assert(rtrim(s@, a as int, j as int) == rtrim(s@, a as int, j - 1 as int));
        j = j - 1;
    }
    j
}

fn ident_end_x(s: &str, i: usize, b: usize) -> (r: usize)
    requires
        i <= b <= s@.len(),
    ensures
        r as int == ident_end(s@, i as int, b as int),
        i <= r <= b,
{
    let mut j = i;
    while j < b
        invariant
            i <= j <= b,
            b <= s@.len(),
            ident_end(s@, i as int, b as int) == ident_end(s@, j as int, b as int),
        decreases b - j,
    {
        if !is_ident_x(s.get_char(j)) {
            return j;
        }
        assert(ident_end(s@, j as int, b as int) == ident_end(s@, j + 1 as int, b as int));
        j = j + 1;
    }
    j
}

fn is_shelf_x(s: &str, a: usize, b: usize) -> (r: bool)
    requires
        a <= b <= s@.len(),
    ensures
        r == is_shelf_region(s@, a as int, b as int),
{
    if a >= b {
        return false;
    }
    let mut k = a;
    while k < b
        invariant
            a <= k <= b,
            b <= s@.len(),
            forall|t: int| a <= t < k ==> s@[t] == '-',
        decreases b - k,
    {
        if s.get_char(k) != '-' {
            return false;
        }
        k = k + 1;
    }
    true
}

fn parse_name_list_x(s: &str, i: usize, b: usize) -> (r: Option<(Vec<String>, usize)>)
    requires
        i <= b <= s@.len(),
    ensures
        ({
            let sp = parse_name_list(s@, i as int, b as int);
            match r {
                Option::Some((names, e)) => sp == Option::Some((names.deep_view(), e as int))
                    && e <= b,
                Option::None => sp is None,
            }
        }),
    decreases b - i,
{
    let j = skip_spaces_x(s, i, b);
    let k = ident_end_x(s, j, b);
    if k <= j {
        return Option::None;
    }
    let name = s.substring_char(j, k).to_owned();
    let m = skip_spaces_x(s, k, b);
    if m < b && s.get_char(m) == '|' {
        match parse_name_list_x(s, m + 1, b) {
            Option::None => Option::None,
            Option::Some((rest, e)) => {
                let mut rest = rest;
                let ghost rest0 = rest.deep_view();
                let mut v: Vec<String> = Vec::new();
                v.push(name);
                v.append(&mut rest);
                proof {
                    assert(v.deep_view() =~= seq![s@.subrange(j as int, k as int)] + rest0);
                }
                Option::Some((v, e))
            },
        }
    } else {
        let mut v: Vec<String> = Vec::new();
        v.push(name);
        proof {
            assert(v.deep_view() =~= seq![s@.subrange(j as int, k as int)]);
        }
        Option::Some((v, m))
    }
}

fn parse_rel_lists_x(s: &str, i: usize, b: usize) -> (r: Option<
    (Vec<String>, Vec<String>, Option<String>),
>)
    requires
        i <= b <= s@.len(),
    ensures
        ({
            let sp = parse_rel_lists(s@, i as int, b as int);
            match r {
                Option::Some((bef, aft, cmd)) => sp == Option::Some(
                    (bef.deep_view(), aft.deep_view(), cmd_model(cmd)),
                ),
                Option::None => sp is None,
            }
        }),
    decreases b - i,
{
    let j = skip_spaces_x(s, i, b);
    if j >= b {
        let bef: Vec<String> = Vec::new();
        let aft: Vec<String> = Vec::new();
        proof {
            assert(bef.deep_view() =~= Seq::<Seq<char>>::empty());
            assert(aft.deep_view() =~= Seq::<Seq<char>>::empty());
        }
        return Option::Some((bef, aft, Option::None));
    }
    let c0 = s.get_char(j);
    if c0 == '<' || c0 == '>' {
        match parse_name_list_x(s, j + 1, b) {
            Option::None => Option::None,
            Option::Some((names, e)) => {
                proof {
                    lemma_parse_name_list_bounds(s@, j + 1 as int, b as int);
                }
                match parse_rel_lists_x(s, e, b) {
                    Option::None => Option::None,
                    Option::Some((bef, aft, cmd)) => {
                        if c0 == '<' {
                            let ghost names0 = names.deep_view();
                            let ghost bef0 = bef.deep_view();
                            let mut v = names;
                            let mut tail = bef;
                            v.append(&mut tail);
                            proof {
                                assert(v.deep_view() =~= names0 + bef0);
                            }
                            Option::Some((v, aft, cmd))
                        } else {
                            let ghost names0 = names.deep_view();
                            let ghost aft0 = aft.deep_view();
                            let mut v = names;
                            let mut tail = aft;
                            v.append(&mut tail);
                            proof {
                                assert(v.deep_view() =~= names0 + aft0);
                            }
                            Option::Some((bef, v, cmd))
                        }
                    },
                }
            },
        }
    } else if c0 == ':' {
        let c = skip_spaces_x(s, j + 1, b);
        let bef: Vec<String> = Vec::new();
        let aft: Vec<String> = Vec::new();
        proof {
            assert(bef.deep_view() =~= Seq::<Seq<char>>::empty());
            assert(aft.deep_view() =~= Seq::<Seq<char>>::empty());
        }
        if c >= b {
            Option::Some((bef, aft, Option::None))
        } else {
            let cmd = s.substring_char(c, b).to_owned();
            Option::Some((bef, aft, Option::Some(cmd)))
        }
    } else {
        Option::None
    }
}

/// The model of an optional command body.
pub open spec fn cmd_model(c: Option<String>) -> Option<Seq<char>> {
    match c {
        Option::None => Option::None,
        Option::Some(cs) => Option::Some(cs@),
    }
}

fn parse_decl_x(s: &str, a: usize, b: usize) -> (r: Option<NodeDecl>)
    requires
        a <= b <= s@.len(),
    ensures
        ({
            let sp = parse_decl(s@, a as int, b as int);
            match r {
                Option::Some(d) => sp == Option::Some(d@),
                Option::None => sp is None,
            }
        }),
{
    let k = ident_end_x(s, a, b);
    if k <= a {
        return Option::None;
    }
    let name = s.substring_char(a, k).to_owned();
    match parse_rel_lists_x(s, k, b) {
        Option::None => Option::None,
        Option::Some((bef, aft, cmd)) => Option::Some(
            NodeDecl { name, before: bef, after: aft, command: cmd },
        ),
    }
}

fn classify_line_x(s: &str, a: usize, e: usize, line: usize) -> (r: Result<
    Option<StructuralItem>,
    CompileError,
>)
    requires
        a <= e <= s@.len(),
    ensures
        ({
            let sp = classify_line(s@, a as int, e as int, line as nat);
            match r {
                Result::Ok(Option::None) => sp == Result::<Option<ItemModel>, ErrModel>::Ok(
                    Option::None,
                ),
                Result::Ok(Option::Some(it)) => sp == Result::<Option<ItemModel>, ErrModel>::Ok(
                    Option::Some(it@),
                ),
                Result::Err(er) => sp == Result::<Option<ItemModel>, ErrModel>::Err(er@),
            }
        }),
{
    let a2 = skip_spaces_x(s, a, e);
    let b2 = rtrim_x(s, a2, e);
    if a2 >= b2 {
        return Result::Ok(Option::None);
    }
    if s.get_char(a2) == '#' {
        return Result::Ok(Option::None);
    }
    if is_shelf_x(s, a2, b2) {
        return Result::Ok(Option::Some(StructuralItem::Shelf));
    }
    match parse_decl_x(s, a2, b2) {
        Option::None => Result::Err(
            CompileError::Syntax { line, text: s.substring_char(a2, b2).to_owned() },
        ),
        Option::Some(d) => Result::Ok(Option::Some(StructuralItem::Node(d))),
    }
}

fn parse_doc_x(s: &str, i: usize, line: usize, n: usize) -> (r: Result<
    Vec<StructuralItem>,
    CompileError,
>)
    requires
        n == s@.len(),
        i <= n,
        n < usize::MAX,
        1 <= line,
        line <= i + 1,
    ensures
        ({
            let sp = parse_doc_from(s@, i as int, line as nat);
            match r {
                Result::Ok(items) => sp == Result::<Seq<ItemModel>, ErrModel>::Ok(
                    items_model(items@),
                ),
                Result::Err(er) => sp == Result::<Seq<ItemModel>, ErrModel>::Err(er@),
            }
        }),
    decreases n - i,
{
    if i >= n {
        let items: Vec<StructuralItem> = Vec::new();
        proof {
            assert(items_model(items@) =~= Seq::<ItemModel>::empty());
        }
        return Result::Ok(items);
    }
    let e = scan_line_end(s, i, n);
    match classify_line_x(s, i, e, line) {
        Result::Err(er) => Result::Err(er),
        Result::Ok(opt) => {
            let rest = if e >= n {
                let items: Vec<StructuralItem> = Vec::new();
                proof {
                    assert(items_model(items@) =~= Seq::<ItemModel>::empty());
                }
                Result::Ok(items)
            } else {
                parse_doc_x(s, e + 1, line + 1, n)
            };
            match rest {
                Result::Err(er) => Result::Err(er),
                Result::Ok(items) => {
                    match opt {
                        Option::None => Result::Ok(items),
                        Option::Some(it) => {
                            let ghost it_model = it@;
                            let mut items = items;
                            let ghost items0 = items@;
                            items.insert(0, it);
                            proof {
                                assert(items_model(items@) =~= seq![it_model] + items_model(
                                    items0,
                                ));
                            }
                            Result::Ok(items)
                        },
                    }
                },
            }
        },
    }
}

/// The tokenizer: parses raw DEML text into its ordered structural items.
pub struct DagParser;

impl DagParser {
    /// Tokenizes a whole document: the ordered sequence of node
    /// declarations and tier delimiters, or the first syntax error. The
    /// length bound is a machine limit: a text slice always fits it.
    pub fn parse(file: &str) -> (r: Result<Vec<StructuralItem>, CompileError>)
        requires
            file@.len() < usize::MAX,
        ensures
            ({
                let sp = parse_doc(file@);
                match r {
                    Result::Ok(items) => sp == Result::<Seq<ItemModel>, ErrModel>::Ok(
                        items_model(items@),
                    ),
                    Result::Err(er) => sp == Result::<Seq<ItemModel>, ErrModel>::Err(er@),
                }
            }),
    {
        let n = file.unicode_len();
        parse_doc_x(file, 0, 1, n)
    }
}

} // verus!
