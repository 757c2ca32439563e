//! The document scanner: line classes, sections, environment bindings and elements.
use vstd::prelude::*;
use crate::pattern::{attribute_pairs, attribute_pattern, group_pairs_of};
use crate::strmap::{StrMap, map_of, pair_views};
use crate::text::{
    char_views, chars_of, contains, contains_exec, find_char, first_of, lemma_split_nonempty,
    slice_of, split_chars, split_on, starts_with, starts_with_exec, string_of, trim, trim_chars,
};

verus! {

pub open spec fn doctype_marker() -> Seq<char> {
    seq!['D', 'O', 'C', 'T', 'Y', 'P', 'E', '=', 'J', 'T', 'L']
}

pub open spec fn env_begin_marker() -> Seq<char> {
    seq!['>', '>', '>', 'E', 'N', 'V', ';']
}

pub open spec fn body_begin_marker() -> Seq<char> {
    seq!['>', '>', '>', 'B', 'E', 'G', 'I', 'N', ';']
}

pub open spec fn body_end_marker() -> Seq<char> {
    seq!['>', '>', '>', 'E', 'N', 'D', ';']
}

pub open spec fn comment_open() -> Seq<char> {
    seq!['/', '*']
}

pub open spec fn comment_close() -> Seq<char> {
    seq!['*', '/']
}

pub open spec fn line_comment() -> Seq<char> {
    seq!['>', '/', '/', '>']
}

pub open spec fn env_prefix() -> Seq<char> {
    seq!['>', '>', '>']
}

pub open spec fn env_reference() -> Seq<char> {
    seq!['$', 'e', 'n', 'v', ':']
}

pub open spec fn key_field() -> Seq<char> {
    seq!['K', 'E', 'Y']
}

pub open spec fn content_field() -> Seq<char> {
    seq!['C', 'o', 'n', 't', 'e', 'n', 't']
}

pub open spec fn contents_field() -> Seq<char> {
    seq!['C', 'o', 'n', 't', 'e', 'n', 't', 's']
}

/// Why a document could not be parsed.
#[derive(PartialEq, Eq, Structural, Clone, Copy, Debug)]
pub enum ParseError {
    MissingDoctype,
    MissingPrefix,
    MissingSeparator,
    ElementTooShort,
    NoAttributesFound,
    MalformedContent,
    /// The pattern engine failed to compile the attribute pattern; its contract rules
    /// this out, so no parse ends here.
    PatternEngine,
}

/// The class of one trimmed line.
#[derive(PartialEq, Eq, Structural, Clone, Copy, Debug)]
pub enum LineKind {
    Blank,
    CommentOpen,
    CommentClose,
    CommentLine,
    EnvBegin,
    BodyBegin,
    BodyEnd,
    Content,
}

/// The section the scanner is in.
#[derive(PartialEq, Eq, Structural, Clone, Copy, Debug)]
pub enum Mode {
    Preamble,
    Env,
    Body,
    Closed,
}

pub open spec fn line_kind(l: Seq<char>) -> LineKind {
    if l.len() == 0 {
        LineKind::Blank
    } else if starts_with(l, comment_open()) {
        LineKind::CommentOpen
    } else if starts_with(l, comment_close()) {
        LineKind::CommentClose
    } else if starts_with(l, line_comment()) {
        LineKind::CommentLine
    } else if l == env_begin_marker() {
        LineKind::EnvBegin
    } else if l == body_begin_marker() {
        LineKind::BodyBegin
    } else if l == body_end_marker() {
        LineKind::BodyEnd
    } else {
        LineKind::Content
    }
}

/// Section transitions: Preamble to Env, Preamble or Env to Body, Body to Closed.
/// A marker that names no transition from the current section leaves it unchanged.
pub open spec fn next_mode(m: Mode, k: LineKind) -> Mode {
    match (m, k) {
        (Mode::Preamble, LineKind::EnvBegin) => Mode::Env,
        (Mode::Preamble, LineKind::BodyBegin) => Mode::Body,
        (Mode::Env, LineKind::BodyBegin) => Mode::Body,
        (Mode::Body, LineKind::BodyEnd) => Mode::Closed,
        _ => m,
    }
}

/// The name and value that an environment declaration (starting with `>>>`) binds.
pub open spec fn env_binding(d: Seq<char>) -> Option<(Seq<char>, Seq<char>)> {
    let body = d.subrange(3, d.len() as int);
    let e = first_of(body, '=');
    if e < body.len() {
        Some((trim(body.take(e)), trim(body.skip(e + 1))))
    } else {
        None
    }
}

/// Content after environment substitution.
pub open spec fn resolve(raw: Seq<char>, env: Map<Seq<char>, Seq<char>>) -> Seq<char> {
    if starts_with(raw, env_reference()) && env.contains_key(raw.skip(5)) {
        env[raw.skip(5)]
    } else {
        raw
    }
}

/// The record of an element declaration `d`, given the attribute pairs found after its
/// leading `>`.
pub open spec fn element_of(
    d: Seq<char>,
    env: Map<Seq<char>, Seq<char>>,
    attrs: Seq<(Seq<char>, Seq<char>)>,
) -> Result<Map<Seq<char>, Seq<char>>, ParseError> {
    if d.len() < 5 {
        Err(ParseError::ElementTooShort)
    } else if d[0] != '>' {
        Err(ParseError::MissingPrefix)
    } else {
        let rest = d.drop_first();
        let s = first_of(rest, '>');
        if s == rest.len() {
            Err(ParseError::MissingSeparator)
        } else if attrs.len() == 0 {
            Err(ParseError::NoAttributesFound)
        } else {
            let tail = rest.skip(s + 1);
            let part = if tail.len() > 0 && tail.last() == ';' {
                tail.drop_last()
            } else {
                tail
            };
            let k = first_of(part, '>');
            if k == part.len() || k == 0 || k + 1 == part.len() {
                Err(ParseError::MalformedContent)
            } else {
                let c = resolve(part.skip(k + 1), env);
                Ok(
                    map_of(attrs).insert(key_field(), part.take(k)).insert(
                        content_field(),
                        c,
                    ).insert(contents_field(), c),
                )
            }
        }
    }
}

/// The state of a scan: section, environment so far, records so far.
pub struct ScanView {
    pub mode: Mode,
    pub env: Map<Seq<char>, Seq<char>>,
    pub records: Seq<Map<Seq<char>, Seq<char>>>,
}

pub open spec fn initial_scan() -> ScanView {
    ScanView { mode: Mode::Preamble, env: Map::empty(), records: Seq::empty() }
}

/// One `;`-separated piece of a content line.
pub open spec fn step_decl(st: ScanView, piece: Seq<char>) -> Result<ScanView, ParseError> {
    let d = trim(piece);
    if d.len() == 0 || starts_with(d, line_comment()) {
        Ok(st)
    } else if st.mode == Mode::Env && starts_with(d, env_prefix()) {
        match env_binding(d) {
            Some(b) => Ok(ScanView { env: st.env.insert(b.0, b.1), ..st }),
            None => Ok(st),
        }
    } else if st.mode == Mode::Body && d[0] == '>' {
        match element_of(d, st.env, group_pairs_of(attribute_pattern(), d.drop_first())) {
            Ok(m) => Ok(ScanView { records: st.records.push(m), ..st }),
            Err(e) => Err(e),
        }
    } else {
        Ok(st)
    }
}

/// Applies `f` to each item in turn, stopping at the first error.
pub open spec fn fold_steps(
    st: ScanView,
    items: Seq<Seq<char>>,
    f: spec_fn(ScanView, Seq<char>) -> Result<ScanView, ParseError>,
) -> Result<ScanView, ParseError>
    decreases items.len(),
{
    if items.len() == 0 {
        Ok(st)
    } else {
        match fold_steps(st, items.drop_last(), f) {
            Ok(s) => f(s, items.last()),
            Err(e) => Err(e),
        }
    }
}

pub open spec fn decl_step() -> spec_fn(ScanView, Seq<char>) -> Result<ScanView, ParseError> {
    |st: ScanView, piece: Seq<char>| step_decl(st, piece)
}

/// One raw line of the document.
pub open spec fn step_line(st: ScanView, raw: Seq<char>) -> Result<ScanView, ParseError> {
    let l = trim(raw);
    let k = line_kind(l);
    if k == LineKind::Content {
        fold_steps(st, split_on(l, ';'), decl_step())
    } else if k == LineKind::EnvBegin || k == LineKind::BodyBegin || k == LineKind::BodyEnd {
        Ok(ScanView { mode: next_mode(st.mode, k), ..st })
    } else {
        Ok(st)
    }
}

/// The section after one raw line: markers move it, other lines leave it.
pub open spec fn mode_after_line(m: Mode, raw: Seq<char>) -> Mode {
    let k = line_kind(trim(raw));
    if k == LineKind::EnvBegin || k == LineKind::BodyBegin || k == LineKind::BodyEnd {
        next_mode(m, k)
    } else {
        m
    }
}

/// Whether a piece of a content line, met in section `m`, is an element declaration.
pub open spec fn is_element_decl(m: Mode, piece: Seq<char>) -> bool {
    let d = trim(piece);
    &&& d.len() > 0
    &&& !starts_with(d, line_comment())
    &&& m == Mode::Body
    &&& d[0] == '>'
}

/// The element declarations among `ps`, all met in section `m`.
pub open spec fn count_pieces(m: Mode, ps: Seq<Seq<char>>) -> nat
    decreases ps.len(),
{
    if ps.len() == 0 {
        0
    } else {
        count_pieces(m, ps.drop_last()) + if is_element_decl(m, ps.last()) {
            1nat
        } else {
            0nat
        }
    }
}

/// The section after the given lines; it depends on the markers alone.
pub open spec fn mode_after(lines: Seq<Seq<char>>) -> Mode
    decreases lines.len(),
{
    if lines.len() == 0 {
        Mode::Preamble
    } else {
        mode_after_line(mode_after(lines.drop_last()), lines.last())
    }
}

/// The element declarations of the given lines: pieces of content lines met in the body.
pub open spec fn element_count(lines: Seq<Seq<char>>) -> nat
    decreases lines.len(),
{
    if lines.len() == 0 {
        0
    } else {
        let l = trim(lines.last());
        element_count(lines.drop_last()) + if line_kind(l) == LineKind::Content {
            count_pieces(mode_after(lines.drop_last()), split_on(l, ';'))
        } else {
            0nat
        }
    }
}

pub proof fn lemma_count_pieces_prefix(m: Mode, ps: Seq<Seq<char>>, j: int)
    requires
        0 <= j <= ps.len(),
    ensures
        count_pieces(m, ps.take(j)) <= count_pieces(m, ps),
    decreases ps.len(),
{
    if j < ps.len() {
        assert(ps.drop_last().take(j) =~= ps.take(j));
        lemma_count_pieces_prefix(m, ps.drop_last(), j);
    } else {
        assert(ps.take(j) =~= ps);
    }
}

/// Outside the body no piece is an element declaration.
pub proof fn lemma_count_pieces_outside_body(m: Mode, ps: Seq<Seq<char>>)
    requires
        m != Mode::Body,
    ensures
        count_pieces(m, ps) == 0,
    decreases ps.len(),
{
    if ps.len() > 0 {
        lemma_count_pieces_outside_body(m, ps.drop_last());
    }
}

pub open spec fn line_step() -> spec_fn(ScanView, Seq<char>) -> Result<ScanView, ParseError> {
    |st: ScanView, raw: Seq<char>| step_line(st, raw)
}

pub open spec fn lines_of(text: Seq<char>) -> Seq<Seq<char>> {
    split_on(text, '\n')
}

pub open spec fn has_doctype(text: Seq<char>) -> bool {
    contains(lines_of(text)[0], doctype_marker())
}

/// The scan of a whole document.
pub open spec fn scan_document(text: Seq<char>) -> Result<ScanView, ParseError> {
    if !has_doctype(text) {
        Err(ParseError::MissingDoctype)
    } else {
        fold_steps(initial_scan(), lines_of(text), line_step())
    }
}

/// The records of a document, in order of appearance.
pub open spec fn document_records(text: Seq<char>) -> Result<Seq<Map<Seq<char>, Seq<char>>>, ParseError> {
    match scan_document(text) {
        Ok(s) => Ok(s.records),
        Err(e) => Err(e),
    }
}

/// Position of the first line that trims to the body-begin marker, or the number of lines.
pub open spec fn first_body_begin(lines: Seq<Seq<char>>) -> int
    decreases lines.len(),
{
    if lines.len() == 0 {
        0
    } else if trim(lines[0]) == body_begin_marker() {
        0
    } else {
        1 + first_body_begin(lines.drop_first())
    }
}

/// The environment of a document: the bindings made before its body begins.
pub open spec fn document_env(text: Seq<char>) -> Result<Map<Seq<char>, Seq<char>>, ParseError> {
    if !has_doctype(text) {
        Err(ParseError::MissingDoctype)
    } else {
        let lines = lines_of(text);
        match fold_steps(initial_scan(), lines.take(first_body_begin(lines)), line_step()) {
            Ok(s) => Ok(s.env),
            Err(e) => Err(e),
        }
    }
}

pub open spec fn map_result(r: Result<StrMap, ParseError>) -> Result<Map<Seq<char>, Seq<char>>, ParseError> {
    match r {
        Ok(m) => Ok(m@),
        Err(e) => Err(e),
    }
}

pub open spec fn map_views(v: Seq<StrMap>) -> Seq<Map<Seq<char>, Seq<char>>> {
    v.map_values(|m: StrMap| m@)
}

pub open spec fn records_result(r: Result<Vec<StrMap>, ParseError>) -> Result<Seq<Map<Seq<char>, Seq<char>>>, ParseError> {
    match r {
        Ok(v) => Ok(map_views(v@)),
        Err(e) => Err(e),
    }
}

pub proof fn lemma_fold_err(
    st: ScanView,
    items: Seq<Seq<char>>,
    i: int,
    f: spec_fn(ScanView, Seq<char>) -> Result<ScanView, ParseError>,
)
    requires
        0 <= i <= items.len(),
        fold_steps(st, items.take(i), f) is Err,
    ensures
        fold_steps(st, items, f) == fold_steps(st, items.take(i), f),
    decreases items.len(),
{
    if i == items.len() {
        assert(items.take(i) =~= items);
    } else {
        assert(items.drop_last().take(i) =~= items.take(i));
        lemma_fold_err(st, items.drop_last(), i, f);
    }
}

pub proof fn lemma_first_body_begin(lines: Seq<Seq<char>>, i: int)
    requires
        0 <= i <= lines.len(),
        forall|j: int| 0 <= j < i ==> trim(#[trigger] lines[j]) != body_begin_marker(),
        i == lines.len() || trim(lines[i]) == body_begin_marker(),
    ensures
        first_body_begin(lines) == i,
    decreases lines.len(),
{
    if lines.len() > 0 && i > 0 {
        assert forall|j: int| 0 <= j < i - 1 implies trim(#[trigger] lines.drop_first()[j])
            != body_begin_marker() by {
            assert(lines.drop_first()[j] == lines[j + 1]);
        }
        lemma_first_body_begin(lines.drop_first(), i - 1);
    }
}

} // verus!

verus! {

fn doctype_chars() -> (r: Vec<char>)
    ensures
        r@ == doctype_marker(),
{
    vec!['D', 'O', 'C', 'T', 'Y', 'P', 'E', '=', 'J', 'T', 'L']
}

fn env_begin_chars() -> (r: Vec<char>)
    ensures
        r@ == env_begin_marker(),
{
    vec!['>', '>', '>', 'E', 'N', 'V', ';']
}

fn body_begin_chars() -> (r: Vec<char>)
    ensures
        r@ == body_begin_marker(),
{
    vec!['>', '>', '>', 'B', 'E', 'G', 'I', 'N', ';']
}

fn body_end_chars() -> (r: Vec<char>)
    ensures
        r@ == body_end_marker(),
{
    vec!['>', '>', '>', 'E', 'N', 'D', ';']
}

fn comment_open_chars() -> (r: Vec<char>)
    ensures
        r@ == comment_open(),
{
    vec!['/', '*']
}

fn comment_close_chars() -> (r: Vec<char>)
    ensures
        r@ == comment_close(),
{
    vec!['*', '/']
}

fn line_comment_chars() -> (r: Vec<char>)
    ensures
        r@ == line_comment(),
{
    vec!['>', '/', '/', '>']
}

fn env_prefix_chars() -> (r: Vec<char>)
    ensures
        r@ == env_prefix(),
{
    vec!['>', '>', '>']
}

fn env_reference_chars() -> (r: Vec<char>)
    ensures
        r@ == env_reference(),
{
    vec!['$', 'e', 'n', 'v', ':']
}

fn same_chars(a: &Vec<char>, b: &Vec<char>) -> (r: bool)
    ensures
        r == (a@ == b@),
{
    if a.len() != b.len() {
        return false;
    }
    let r = starts_with_exec(a, b);
    assert(a@.subrange(0, a@.len() as int) =~= a@);
    r
}

impl ParseError {
    pub open spec fn spec_message(self) -> &'static str {
        match self {
            ParseError::MissingDoctype => "invalid JTL document: missing DOCTYPE",
            ParseError::MissingPrefix => "invalid element format: missing '>' prefix",
            ParseError::MissingSeparator => "invalid element format: missing separator",
            ParseError::ElementTooShort => "invalid element format: too short",
            ParseError::NoAttributesFound => "invalid element format: no attributes found",
            ParseError::MalformedContent => "invalid element format: malformed content",
            ParseError::PatternEngine => "invalid element format: attribute pattern failed",
        }
    }

    /// A human-readable description of the error.
    pub fn message(&self) -> (r: String)
        ensures
            r@ == self.spec_message()@,
    {
        let s: &str = match self {
            ParseError::MissingDoctype => "invalid JTL document: missing DOCTYPE",
            ParseError::MissingPrefix => "invalid element format: missing '>' prefix",
            ParseError::MissingSeparator => "invalid element format: missing separator",
            ParseError::ElementTooShort => "invalid element format: too short",
            ParseError::NoAttributesFound => "invalid element format: no attributes found",
            ParseError::MalformedContent => "invalid element format: malformed content",
            ParseError::PatternEngine => "invalid element format: attribute pattern failed",
        };
        s.to_owned()
    }
}

/// Classifies one trimmed line.
pub fn classify_line(l: &Vec<char>) -> (r: LineKind)
    ensures
        r == line_kind(l@),
{
    if l.len() == 0 {
        LineKind::Blank
    } else if starts_with_exec(l, &comment_open_chars()) {
        LineKind::CommentOpen
    } else if starts_with_exec(l, &comment_close_chars()) {
        LineKind::CommentClose
    } else if starts_with_exec(l, &line_comment_chars()) {
        LineKind::CommentLine
    } else if same_chars(l, &env_begin_chars()) {
        LineKind::EnvBegin
    } else if same_chars(l, &body_begin_chars()) {
        LineKind::BodyBegin
    } else if same_chars(l, &body_end_chars()) {
        LineKind::BodyEnd
    } else {
        LineKind::Content
    }
}

/// The section after a line of class `k` in section `m`.
pub fn advance_mode(m: Mode, k: LineKind) -> (r: Mode)
    ensures
        r == next_mode(m, k),
{
    match (m, k) {
        (Mode::Preamble, LineKind::EnvBegin) => Mode::Env,
        (Mode::Preamble, LineKind::BodyBegin) => Mode::Body,
        (Mode::Env, LineKind::BodyBegin) => Mode::Body,
        (Mode::Body, LineKind::BodyEnd) => Mode::Closed,
        _ => m,
    }
}

/// Splits an environment declaration `>>>name=value` into its trimmed name and value.
pub fn parse_env_decl(d: &Vec<char>) -> (r: Option<(Vec<char>, Vec<char>)>)
    requires
        starts_with(d@, env_prefix()),
    ensures
        match env_binding(d@) {
            Some(b) => r is Some && r->Some_0.0@ == b.0 && r->Some_0.1@ == b.1,
            None => r is None,
        },
{
    let body = slice_of(d, 3, d.len());
    let e = find_char(&body, '=');
    if e < body.len() {
        let name = trim_chars(&slice_of(&body, 0, e));
        let value = trim_chars(&slice_of(&body, e + 1, body.len()));
        proof {
            assert(body@.subrange(0, e as int) =~= body@.take(e as int));
            assert(body@.subrange(e + 1, body@.len() as int) =~= body@.skip(e + 1));
        }
        Some((name, value))
    } else {
        None
    }
}

/// Content after environment substitution.
pub fn resolve_content(raw: &Vec<char>, env: &StrMap) -> (r: Vec<char>)
    requires
        env.wf(),
    ensures
        r@ == resolve(raw@, env@),
{
    if starts_with_exec(raw, &env_reference_chars()) {
        let name = string_of(&slice_of(raw, 5, raw.len()));
        proof {
            assert(raw@.subrange(5, raw@.len() as int) =~= raw@.skip(5));
        }
        match env.get(name.as_str()) {
            Some(v) => {
                return chars_of(v.as_str());
            },
            None => {},
        }
    }
    slice_of(raw, 0, raw.len())
}

} // verus!

verus! {

/// The record of element declaration `d`, given the attribute pairs `attrs` found after
/// its leading `>`.
pub fn build_element(d: &Vec<char>, attrs: &Vec<(String, String)>, env: &StrMap) -> (r: Result<StrMap, ParseError>)
    requires
        env.wf(),
    ensures
        map_result(r) == element_of(d@, env@, pair_views(attrs@)),
        r is Ok ==> r->Ok_0.wf(),
{
    if d.len() < 5 {
        return Err(ParseError::ElementTooShort);
    }
    if d[0] != '>' {
        return Err(ParseError::MissingPrefix);
    }
    let rest = slice_of(d, 1, d.len());
    assert(rest@ =~= d@.drop_first());
    let s = find_char(&rest, '>');
    if s == rest.len() {
        return Err(ParseError::MissingSeparator);
    }
    if attrs.len() == 0 {
        return Err(ParseError::NoAttributesFound);
    }
    let tail = slice_of(&rest, s + 1, rest.len());
    assert(tail@ =~= rest@.skip(s + 1));
    let part = if tail.len() > 0 && tail[tail.len() - 1] == ';' {
        let p = slice_of(&tail, 0, tail.len() - 1);
        assert(p@ =~= tail@.drop_last());
        p
    } else {
        tail
    };
    let k = find_char(&part, '>');
    if k == part.len() || k == 0 || k + 1 == part.len() {
        return Err(ParseError::MalformedContent);
    }
    let id = slice_of(&part, 0, k);
    let raw = slice_of(&part, k + 1, part.len());
    assert(id@ =~= part@.take(k as int));
    assert(raw@ =~= part@.skip(k + 1));
    let content = resolve_content(&raw, env);
    let mut record = StrMap::new();
    let mut i: usize = 0;
    while i < attrs.len()
        invariant
            i <= attrs@.len(),
            record.wf(),
            record@ == map_of(pair_views(attrs@).take(i as int)),
        decreases attrs@.len() - i,
    {
        let ghost before = record@;
        record.insert(attrs[i].0.clone(), attrs[i].1.clone());
        proof {
            assert(pair_views(attrs@).take(i + 1).drop_last() =~= pair_views(attrs@).take(i as int));
        }
        i += 1;
    }
    assert(pair_views(attrs@).take(attrs@.len() as int) =~= pair_views(attrs@));
    record.insert(string_of(&vec!['K', 'E', 'Y']), string_of(&id));
    record.insert(string_of(&vec!['C', 'o', 'n', 't', 'e', 'n', 't']), string_of(&content));
    record.insert(string_of(&vec!['C', 'o', 'n', 't', 'e', 'n', 't', 's']), string_of(&content));
    Ok(record)
}

/// Parses one element declaration: the attribute pattern runs over what follows the
/// leading `>`, and the result is the record or error that `element_of` gives.
pub fn parse_element(d: &Vec<char>, env: &StrMap) -> (r: Result<StrMap, ParseError>)
    requires
        env.wf(),
    ensures
        map_result(r) == element_of(d@, env@, group_pairs_of(attribute_pattern(), d@.drop_first())),
        r is Ok ==> r->Ok_0.wf(),
{
    if d.len() >= 5 && d[0] == '>' {
        let rest = slice_of(d, 1, d.len());
        assert(rest@ =~= d@.drop_first());
        if find_char(&rest, '>') < rest.len() {
            let haystack = string_of(&rest);
            match attribute_pairs(haystack.as_str()) {
                Some(attrs) => {
                    return build_element(d, &attrs, env);
                },
                None => {
                    return Err(ParseError::PatternEngine);
                },
            }
        }
    }
    let none: Vec<(String, String)> = Vec::new();
    build_element(d, &none, env)
}

} // verus!

verus! {

/// The running state of a scan: section, environment so far, records so far.
pub struct Scanner {
    pub mode: Mode,
    pub env: StrMap,
    pub records: Vec<StrMap>,
}

impl View for Scanner {
    type V = ScanView;

    open spec fn view(&self) -> ScanView {
        ScanView { mode: self.mode, env: self.env@, records: map_views(self.records@) }
    }
}

/// A step ended as `expected` says.
pub open spec fn step_outcome(
    r: Result<(), ParseError>,
    after: ScanView,
    expected: Result<ScanView, ParseError>,
) -> bool {
    match expected {
        Ok(s) => r is Ok && after == s,
        Err(e) => r == Err::<(), ParseError>(e),
    }
}

/// Whether the raw line trims to the body-begin marker.
fn is_body_begin_line(raw: &Vec<char>) -> (r: bool)
    ensures
        r == (trim(raw@) == body_begin_marker()),
{
    same_chars(&trim_chars(raw), &body_begin_chars())
}

impl Scanner {
    pub open spec fn wf(&self) -> bool {
        &&& self.env.wf()
        &&& forall|i: int| 0 <= i < self.records@.len() ==> #[trigger] self.records@[i].wf()
    }

    pub fn new() -> (r: Scanner)
        ensures
            r@ == initial_scan(),
            r.wf(),
    {
        let r = Scanner { mode: Mode::Preamble, env: StrMap::new(), records: Vec::new() };
        assert(map_views(r.records@) =~= Seq::<Map<Seq<char>, Seq<char>>>::empty());
        r
    }

    /// Handles one `;`-separated piece of a content line.
    pub fn step_decl(&mut self, piece: &Vec<char>) -> (r: Result<(), ParseError>)
        requires
            old(self).wf(),
        ensures
            final(self).wf(),
            step_outcome(r, final(self)@, step_decl(old(self)@, piece@)),
            final(self).mode == old(self).mode,
            r is Err ==> is_element_decl(old(self).mode, piece@),
    {
        let d = trim_chars(piece);
        if d.len() == 0 || starts_with_exec(&d, &line_comment_chars()) {
            return Ok(());
        }
        if self.mode == Mode::Env && starts_with_exec(&d, &env_prefix_chars()) {
            match parse_env_decl(&d) {
                Some((name, value)) => {
                    self.env.insert(string_of(&name), string_of(&value));
                },
                None => {},
            }
            return Ok(());
        }
        if self.mode == Mode::Body && d[0] == '>' {
            match parse_element(&d, &self.env) {
                Ok(m) => {
                    let ghost before = self.records@;
                    self.records.push(m);
                    assert(map_views(self.records@) =~= map_views(before).push(m@));
                    return Ok(());
                },
                Err(e) => {
                    return Err(e);
                },
            }
        }
        Ok(())
    }

    /// Handles one raw line of the document.
    pub fn step_line(&mut self, raw: &Vec<char>) -> (r: Result<(), ParseError>)
        requires
            old(self).wf(),
        ensures
            final(self).wf(),
            step_outcome(r, final(self)@, step_line(old(self)@, raw@)),
            final(self).mode == mode_after_line(old(self).mode, raw@),
            r is Err ==> line_kind(trim(raw@)) == LineKind::Content && count_pieces(
                old(self).mode,
                split_on(trim(raw@), ';'),
            ) > 0,
    {
        let l = trim_chars(raw);
        let k = classify_line(&l);
        match k {
            LineKind::Content => {
                let pieces = split_chars(&l, ';');
                let ghost st0 = self@;
                let ghost items = char_views(pieces@);
                assert(items.take(0) =~= Seq::<Seq<char>>::empty());
                let mut i: usize = 0;
                while i < pieces.len()
                    invariant
                        self.wf(),
                        i <= pieces@.len(),
                        items == char_views(pieces@),
                        items == split_on(l@, ';'),
                        st0 == old(self)@,
                        self.mode == old(self).mode,
                        l@ == trim(raw@),
                        line_kind(l@) == LineKind::Content,
                        fold_steps(st0, items.take(i as int), decl_step()) == Ok::<
                            ScanView,
                            ParseError,
                        >(self@),
                    decreases pieces@.len() - i,
                {
                    let ghost before = self@;
                    let r = self.step_decl(&pieces[i]);
                    proof {
                        assert(items.take(i + 1).drop_last() =~= items.take(i as int));
                        assert(items.take(i + 1).last() == pieces@[i as int]@);
                        assert(fold_steps(st0, items.take(i + 1), decl_step()) == step_decl(
                            before,
                            pieces@[i as int]@,
                        ));
                    }
                    match r {
                        Err(e) => {
                            proof {
                                lemma_fold_err(st0, items, i + 1, decl_step());
                                assert(items.take(i + 1).last() == items[i as int]);
                                lemma_count_pieces_prefix(st0.mode, items, i + 1);
                            }
                            return Err(e);
                        },
                        Ok(()) => {},
                    }
                    i += 1;
                }
                assert(items.take(i as int) =~= items);
                Ok(())
            },
            LineKind::EnvBegin | LineKind::BodyBegin | LineKind::BodyEnd => {
                self.mode = advance_mode(self.mode, k);
                Ok(())
            },
            _ => Ok(()),
        }
    }
}

/// Parses a document into its element records, in order of appearance: exactly
/// `document_records(text@)`.
pub fn parse(text: &str) -> (r: Result<Vec<StrMap>, ParseError>)
    ensures
        records_result(r) == document_records(text@),
        !has_doctype(text@) ==> r == Err::<Vec<StrMap>, ParseError>(ParseError::MissingDoctype),
        r is Ok ==> forall|i: int| 0 <= i < r->Ok_0@.len() ==> #[trigger] r->Ok_0@[i].wf(),
{
    let chars = chars_of(text);
    let lines = split_chars(&chars, '\n');
    let ghost items = char_views(lines@);
    proof {
        lemma_split_nonempty(text@, '\n');
    }
    if lines.len() == 0 || !contains_exec(&lines[0], &doctype_chars()) {
        return Err(ParseError::MissingDoctype);
    }
    assert(has_doctype(text@));
    let mut sc = Scanner::new();
    assert(items.take(0) =~= Seq::<Seq<char>>::empty());
    let mut i: usize = 0;
    while i < lines.len()
        invariant
            sc.wf(),
            i <= lines@.len(),
            items == char_views(lines@),
            items == lines_of(text@),
            has_doctype(text@),
            sc.mode == mode_after(items.take(i as int)),
            fold_steps(initial_scan(), items.take(i as int), line_step()) == Ok::<
                ScanView,
                ParseError,
            >(sc@),
        decreases lines@.len() - i,
    {
        let r = sc.step_line(&lines[i]);
        proof {
            assert(items.take(i + 1).drop_last() =~= items.take(i as int));
            assert(items.take(i + 1).last() == items[i as int]);
        }
        match r {
            Err(e) => {
                proof {
                    lemma_fold_err(initial_scan(), items, i + 1, line_step());
                }
                return Err(e);
            },
            Ok(()) => {},
        }
        i += 1;
    }
    assert(items.take(i as int) =~= items);
    Ok(sc.records)
}

/// The environment that a document declares before its body begins; it fails only on a
/// missing doctype.
pub fn parse_env(text: &str) -> (r: Result<StrMap, ParseError>)
    ensures
        map_result(r) == document_env(text@),
        r is Ok <==> has_doctype(text@),
        r is Ok ==> r->Ok_0.wf(),
{
    let chars = chars_of(text);
    let lines = split_chars(&chars, '\n');
    let ghost all = char_views(lines@);
    proof {
        lemma_split_nonempty(text@, '\n');
    }
    if lines.len() == 0 || !contains_exec(&lines[0], &doctype_chars()) {
        return Err(ParseError::MissingDoctype);
    }
    assert(has_doctype(text@));
    let mut stop: usize = 0;
    while stop < lines.len() && !is_body_begin_line(&lines[stop])
        invariant
            stop <= lines@.len(),
            all == char_views(lines@),
            forall|j: int| 0 <= j < stop ==> trim(#[trigger] all[j]) != body_begin_marker(),
        decreases lines@.len() - stop,
    {
        stop += 1;
    }
    proof {
        lemma_first_body_begin(all, stop as int);
    }
    let ghost items = all.take(stop as int);
    let mut sc = Scanner::new();
    assert(items.take(0) =~= Seq::<Seq<char>>::empty());
    let mut i: usize = 0;
    while i < stop
        invariant
            sc.wf(),
            i <= stop <= lines@.len(),
            all == char_views(lines@),
            all == lines_of(text@),
            stop == first_body_begin(all),
            has_doctype(text@),
            forall|j: int| 0 <= j < stop ==> trim(#[trigger] all[j]) != body_begin_marker(),
            sc.mode != Mode::Body,
            items == all.take(stop as int),
            fold_steps(initial_scan(), items.take(i as int), line_step()) == Ok::<
                ScanView,
                ParseError,
            >(sc@),
        decreases stop - i,
    {
        let ghost m = sc.mode;
        let r = sc.step_line(&lines[i]);
        proof {
            lemma_count_pieces_outside_body(m, split_on(trim(lines@[i as int]@), ';'));
            assert(r is Ok);
            assert(items.take(i + 1).drop_last() =~= items.take(i as int));
            assert(items[i as int] == all[i as int]);
        }
        i += 1;
    }
    assert(items.take(i as int) =~= items);
    Ok(sc.env)
}

} // verus!
