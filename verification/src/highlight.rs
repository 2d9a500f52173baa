//! Syntax highlighting: text as a sequence of classified runs.
use vstd::prelude::*;
use vstd::slice::slice_subrange;
use vstd::utf8::{
    decode_utf8, decode_utf8_encode_utf8, encode_scalar, encode_utf8, encode_utf8_decode_utf8,
    encode_utf8_valid_utf8, is_char_boundary, is_char_boundary_start_end_of_seq,
    partial_valid_partial_invalid_utf8, valid_utf8, valid_utf8_split,
};

use crate::text::{same_text, utf8_text};

verus! {

/// What a run of text is.
#[derive(Clone, Copy, Debug, PartialEq, Eq, Structural)]
pub enum TokenClass {
    Plain,
    Keyword,
    Function,
    String,
    Comment,
    Type,
    Variable,
    Constant,
    Number,
    Operator,
    Punctuation,
    Property,
    Attribute,
    Tag,
    Macro,
    Label,
    Namespace,
    Constructor,
    Title,
    Strong,
    Emphasis,
    Link,
    Literal,
    Strikethrough,
    DiffAdd,
    DiffDelete,
    Embedded,
    Error,
}

/// A run of text of one class.
#[derive(Debug)]
pub struct Token {
    pub text: String,
    pub kind: TokenClass,
}

/// The model of a [`Token`].
pub struct TokenView {
    pub text: Seq<char>,
    pub kind: TokenClass,
}

impl View for Token {
    type V = TokenView;

    open spec fn view(&self) -> TokenView {
        TokenView { text: self.text@, kind: self.kind }
    }
}

/// The models of tokens.
pub open spec fn token_views(s: Seq<Token>) -> Seq<TokenView> {
    s.map_values(|t: Token| t@)
}

/// A stretch of text that a grammar recognised.
pub struct Span {
    /// Where it starts, in bytes.
    pub start: u32,
    /// Where it ends.
    pub end: u32,
    /// What it was recognised as.
    pub capture: String,
    /// The rule that recognised it. Later rules count more.
    pub pattern_index: u32,
}

/// The model of a [`Span`].
pub struct SpanView {
    pub start: u32,
    pub end: u32,
    pub capture: Seq<char>,
    pub pattern_index: u32,
}

impl View for Span {
    type V = SpanView;

    open spec fn view(&self) -> SpanView {
        SpanView {
            start: self.start,
            end: self.end,
            capture: self.capture@,
            pattern_index: self.pattern_index,
        }
    }
}

/// The models of spans.
pub open spec fn span_views(s: Seq<Span>) -> Seq<SpanView> {
    s.map_values(|t: Span| t@)
}

/// A highlighter of the `arborium` crate.
#[verifier::external_type_specification]
#[verifier::external_body]
pub struct ExHighlighter(arborium::Highlighter);

/// Makes a highlighter with the grammars that are built in.
pub assume_specification[ arborium::Highlighter::new ]() -> (r: arborium::Highlighter)
;

/// The spans that a highlighter with the built-in grammars finds, as
/// `arborium::Highlighter::highlight_spans` gives them; nothing where the language is not
/// known or the text cannot be parsed.
pub uninterp spec fn spans_in(lang: Seq<char>, text: Seq<char>) -> Option<Seq<SpanView>>;

/// The name of the slot that `arborium_theme::highlights::capture_to_slot` gives for a
/// capture.
pub uninterp spec fn slot_of(capture: Seq<char>) -> Seq<char>;

/// Calls `arborium_theme::highlights::capture_to_slot` and gives the name of the slot.
#[verifier::external_body]
fn capture_slot(capture: &str) -> (r: String)
    ensures
        r@ == slot_of(capture@),
{
    format!("{:?}", arborium_theme::highlights::capture_to_slot(capture))
}

/// The class of a slot, by the slot's name.
#[verifier::opaque]
pub open spec fn slot_class(slot: Seq<char>) -> TokenClass {
    if slot == "Keyword"@ {
        TokenClass::Keyword
    } else if slot == "Function"@ {
        TokenClass::Function
    } else if slot == "String"@ {
        TokenClass::String
    } else if slot == "Comment"@ {
        TokenClass::Comment
    } else if slot == "Type"@ {
        TokenClass::Type
    } else if slot == "Variable"@ {
        TokenClass::Variable
    } else if slot == "Constant"@ {
        TokenClass::Constant
    } else if slot == "Number"@ {
        TokenClass::Number
    } else if slot == "Operator"@ {
        TokenClass::Operator
    } else if slot == "Punctuation"@ {
        TokenClass::Punctuation
    } else if slot == "Property"@ {
        TokenClass::Property
    } else if slot == "Attribute"@ {
        TokenClass::Attribute
    } else if slot == "Tag"@ {
        TokenClass::Tag
    } else if slot == "Macro"@ {
        TokenClass::Macro
    } else if slot == "Label"@ {
        TokenClass::Label
    } else if slot == "Namespace"@ {
        TokenClass::Namespace
    } else if slot == "Constructor"@ {
        TokenClass::Constructor
    } else if slot == "Title"@ {
        TokenClass::Title
    } else if slot == "Strong"@ {
        TokenClass::Strong
    } else if slot == "Emphasis"@ {
        TokenClass::Emphasis
    } else if slot == "Link"@ {
        TokenClass::Link
    } else if slot == "Literal"@ {
        TokenClass::Literal
    } else if slot == "Strikethrough"@ {
        TokenClass::Strikethrough
    } else if slot == "DiffAdd"@ {
        TokenClass::DiffAdd
    } else if slot == "DiffDelete"@ {
        TokenClass::DiffDelete
    } else if slot == "Embedded"@ {
        TokenClass::Embedded
    } else if slot == "Error"@ {
        TokenClass::Error
    } else {
        TokenClass::Plain
    }
}

/// The class of a slot, by the slot's name.
pub fn slot_to_class(slot: &str) -> (c: TokenClass)
    ensures
        c == slot_class(slot@),
{
    proof {
        reveal(slot_class);
    }
    if same_text(slot, "Keyword") {
        TokenClass::Keyword
    } else if same_text(slot, "Function") {
        TokenClass::Function
    } else if same_text(slot, "String") {
        TokenClass::String
    } else if same_text(slot, "Comment") {
        TokenClass::Comment
    } else if same_text(slot, "Type") {
        TokenClass::Type
    } else if same_text(slot, "Variable") {
        TokenClass::Variable
    } else if same_text(slot, "Constant") {
        TokenClass::Constant
    } else if same_text(slot, "Number") {
        TokenClass::Number
    } else if same_text(slot, "Operator") {
        TokenClass::Operator
    } else if same_text(slot, "Punctuation") {
        TokenClass::Punctuation
    } else if same_text(slot, "Property") {
        TokenClass::Property
    } else if same_text(slot, "Attribute") {
        TokenClass::Attribute
    } else if same_text(slot, "Tag") {
        TokenClass::Tag
    } else if same_text(slot, "Macro") {
        TokenClass::Macro
    } else if same_text(slot, "Label") {
        TokenClass::Label
    } else if same_text(slot, "Namespace") {
        TokenClass::Namespace
    } else if same_text(slot, "Constructor") {
        TokenClass::Constructor
    } else if same_text(slot, "Title") {
        TokenClass::Title
    } else if same_text(slot, "Strong") {
        TokenClass::Strong
    } else if same_text(slot, "Emphasis") {
        TokenClass::Emphasis
    } else if same_text(slot, "Link") {
        TokenClass::Link
    } else if same_text(slot, "Literal") {
        TokenClass::Literal
    } else if same_text(slot, "Strikethrough") {
        TokenClass::Strikethrough
    } else if same_text(slot, "DiffAdd") {
        TokenClass::DiffAdd
    } else if same_text(slot, "DiffDelete") {
        TokenClass::DiffDelete
    } else if same_text(slot, "Embedded") {
        TokenClass::Embedded
    } else if same_text(slot, "Error") {
        TokenClass::Error
    } else {
        TokenClass::Plain
    }
}

/// The class of a capture.
pub open spec fn capture_class(capture: Seq<char>) -> TokenClass {
    slot_class(slot_of(capture))
}

/// All of the text, unclassified.
pub open spec fn plain_tokens(text: Seq<char>) -> Seq<TokenView> {
    if text.len() == 0 {
        seq![]
    } else {
        seq![TokenView { text, kind: TokenClass::Plain }]
    }
}

/// All of the text, unclassified.
fn plain(text: &str) -> (out: Vec<Token>)
    ensures
        token_views(out@) == plain_tokens(text@),
{
    let mut out: Vec<Token> = Vec::new();
    if text.unicode_len() > 0 {
        out.push(Token { text: text.to_owned(), kind: TokenClass::Plain });
    }
    assert(token_views(out@) =~= plain_tokens(text@));
    out
}

/// One more run. Nothing stays nothing, and a run of the class of the last one goes on
/// with it.
pub open spec fn with_run(out: Seq<TokenView>, text: Seq<char>, kind: TokenClass) -> Seq<
    TokenView,
> {
    if text.len() == 0 {
        out
    } else if out.len() > 0 && out.last().kind == kind {
        out.drop_last().push(TokenView { text: out.last().text + text, kind })
    } else {
        out.push(TokenView { text, kind })
    }
}

/// Adds a run.
fn push_run(out: &mut Vec<Token>, text: &str, kind: TokenClass)
    ensures
        token_views(final(out)@) == with_run(token_views(old(out)@), text@, kind),
{
    if text.unicode_len() == 0 {
        return;
    }
    let ghost before = out@;
    let n: usize = out.len();
    if n > 0 {
        assert(token_views(before).last() == before[n - 1]@);
    }
    if n > 0 && out[n - 1].kind == kind {
        match out.pop() {
            Some(last) => {
                let mut joined = last.text;
                joined.append(text);
                out.push(Token { text: joined, kind });
                assert(token_views(out@) =~= token_views(before).drop_last().push(
                    TokenView { text: before[n - 1].text@ + text@, kind },
                ));
            },
            None => {},
        }
    } else {
        out.push(Token { text: text.to_owned(), kind });
        assert(token_views(out@) =~= token_views(before).push(TokenView { text: text@, kind }));
    }
}

/// The bytes from `a` to `b` are text.
pub open spec fn is_piece(bytes: Seq<u8>, a: int, b: int) -> bool {
    0 <= a <= b <= bytes.len() && valid_utf8(bytes.subrange(a, b))
}

/// The text from `a` to `b`.
pub open spec fn piece(bytes: Seq<u8>, a: int, b: int) -> Seq<char> {
    decode_utf8(bytes.subrange(a, b))
}

/// The span covers the byte at `at`.
pub open spec fn covers(span: SpanView, at: int) -> bool {
    span.start <= at < span.end
}

/// Where both cover a byte, `a` goes before `b`: its rule is a later one, or it is the same
/// and the span begins earlier.
pub open spec fn outranks(a: SpanView, b: SpanView) -> bool {
    a.pattern_index > b.pattern_index || (a.pattern_index == b.pattern_index && a.start < b.start)
}

/// The span that decides on the byte at `at`: of those that cover it, the one of the latest
/// rule. Of several that are alike in rule and beginning it is the first.
pub open spec fn top_span(spans: Seq<SpanView>, at: int) -> Option<SpanView>
    decreases spans.len(),
{
    if spans.len() == 0 {
        None
    } else {
        let before = top_span(spans.drop_last(), at);
        if covers(spans.last(), at) && (before is None || outranks(spans.last(), before->0)) {
            Some(spans.last())
        } else {
            before
        }
    }
}

/// The class of the byte at `at`. What no span covers is plain.
pub open spec fn class_at(spans: Seq<SpanView>, at: int) -> TokenClass {
    match top_span(spans, at) {
        Some(span) => capture_class(span.capture),
        None => TokenClass::Plain,
    }
}

/// The classes of the first `n` bytes.
pub open spec fn byte_classes(spans: Seq<SpanView>, n: nat) -> Seq<TokenClass> {
    Seq::new(n, |at: int| class_at(spans, at))
}

/// Where the bytes of one class begin that end at `n`.
pub open spec fn run_start(classes: Seq<TokenClass>, n: int) -> int
    decreases n,
{
    if n <= 1 {
        0
    } else if classes[n - 1] == classes[n - 2] {
        run_start(classes, n - 1)
    } else {
        n - 1
    }
}

/// The runs of the first `n` bytes: bytes of one class that stand side by side are one.
/// Nothing where a run does not begin and end between characters.
pub open spec fn runs_to(bytes: Seq<u8>, classes: Seq<TokenClass>, n: int) -> Option<
    Seq<TokenView>,
>
    decreases n,
{
    let a = run_start(classes, n);
    if n <= 0 || !(0 <= a < n) {
        Some(seq![])
    } else {
        match runs_to(bytes, classes, a) {
            Some(t) => if is_piece(bytes, a, n) {
                Some(with_run(t, piece(bytes, a, n), classes[a]))
            } else {
                None
            },
            None => None,
        }
    }
}

/// The runs of a text with spans. Nothing where the classes change within a character.
pub open spec fn tokens_with(text: Seq<char>, spans: Seq<SpanView>) -> Option<Seq<TokenView>> {
    let bytes = encode_utf8(text);
    runs_to(bytes, byte_classes(spans, bytes.len()), bytes.len() as int)
}

/// A run begins before it ends, and not in front of a place where the class changes.
proof fn lemma_run_start(classes: Seq<TokenClass>, n: int, from: int)
    requires
        0 <= from < n,
        from == 0 || classes[from] != classes[from - 1],
    ensures
        from <= run_start(classes, n) < n,
    decreases n,
{
    if n > 1 && classes[n - 1] == classes[n - 2] {
        lemma_run_start(classes, n - 1, from);
    }
}

/// Where a run cuts a character, so does the whole.
proof fn lemma_cut_stays(bytes: Seq<u8>, classes: Seq<TokenClass>, from: int, n: int)
    requires
        0 < from <= n,
        from == n || classes[from] != classes[from - 1],
        runs_to(bytes, classes, from) is None,
    ensures
        runs_to(bytes, classes, n) is None,
    decreases n,
{
    if from < n {
        lemma_run_start(classes, n, from);
        lemma_cut_stays(bytes, classes, from, run_start(classes, n));
    }
}

/// Tokens that may be missing.
pub open spec fn opt_tokens(t: Option<Vec<Token>>) -> Option<Seq<TokenView>> {
    match t {
        Some(t) => Some(token_views(t@)),
        None => None,
    }
}

/// Adds the piece of text from `a` to `b`. Returns whether it is one.
fn push_piece(out: &mut Vec<Token>, bytes: &[u8], a: usize, b: usize, kind: TokenClass) -> (r: bool)
    ensures
        r == is_piece(bytes@, a as int, b as int),
        token_views(final(out)@) == (if r {
            with_run(token_views(old(out)@), piece(bytes@, a as int, b as int), kind)
        } else {
            token_views(old(out)@)
        }),
{
    if a > b || b > bytes.len() {
        return false;
    }
    match utf8_text(slice_subrange(bytes, a, b)) {
        Some(text) => {
            push_run(out, text.as_str(), kind);
            true
        },
        None => false,
    }
}

/// The classes of spans.
fn span_kinds(spans: &Vec<Span>) -> (kinds: Vec<TokenClass>)
    ensures
        kinds@ == span_views(spans@).map_values(|s: SpanView| capture_class(s.capture)),
{
    let mut kinds: Vec<TokenClass> = Vec::new();
    let mut k: usize = 0;
    while k < spans.len()
        invariant
            k <= spans@.len(),
            kinds@.len() == k,
            forall|j: int|
                0 <= j < k ==> #[trigger] kinds@[j] == capture_class(spans@[j]@.capture),
        decreases spans@.len() - k,
    {
        let slot = capture_slot(spans[k].capture.as_str());
        kinds.push(slot_to_class(slot.as_str()));
        k = k + 1;
    }
    assert(kinds@ =~= span_views(spans@).map_values(|s: SpanView| capture_class(s.capture)));
    kinds
}

/// The class of the byte at `at`, given the classes of the spans.
fn byte_class(spans: &Vec<Span>, kinds: &Vec<TokenClass>, at: usize) -> (c: TokenClass)
    requires
        kinds@ == span_views(spans@).map_values(|s: SpanView| capture_class(s.capture)),
    ensures
        c == class_at(span_views(spans@), at as int),
{
    let ghost views = span_views(spans@);
    let mut best: Option<usize> = None;
    let mut k: usize = 0;
    assert(views.take(0) =~= seq![]);
    while k < spans.len()
        invariant
            k <= spans@.len(),
            views == span_views(spans@),
            match best {
                Some(p) => p < k && top_span(views.take(k as int), at as int) == Some(
                    views[p as int],
                ),
                None => top_span(views.take(k as int), at as int) is None,
            },
        decreases spans@.len() - k,
    {
        proof {
            assert(views.take(k + 1).drop_last() =~= views.take(k as int));
            assert(views.take(k + 1).last() == spans@[k as int]@);
        }
        let here = spans[k].start as usize <= at && at < spans[k].end as usize;
        if here {
            match best {
                Some(p) => {
                    assert(views[p as int] == spans@[p as int]@);
                    if spans[k].pattern_index > spans[p].pattern_index || (spans[k].pattern_index
                        == spans[p].pattern_index && spans[k].start < spans[p].start) {
                        best = Some(k);
                    }
                },
                None => {
                    best = Some(k);
                },
            }
        }
        k = k + 1;
    }
    assert(views.take(k as int) =~= views);
    match best {
        Some(p) => kinds[p],
        None => TokenClass::Plain,
    }
}

/// The classes of the first `n` bytes.
fn classes_of_bytes(spans: &Vec<Span>, n: usize) -> (classes: Vec<TokenClass>)
    ensures
        classes@ == byte_classes(span_views(spans@), n as nat),
{
    let kinds = span_kinds(spans);
    let mut classes: Vec<TokenClass> = Vec::new();
    let mut at: usize = 0;
    while at < n
        invariant
            at <= n,
            kinds@ == span_views(spans@).map_values(|s: SpanView| capture_class(s.capture)),
            classes@.len() == at,
            forall|j: int|
                0 <= j < at ==> #[trigger] classes@[j] == class_at(span_views(spans@), j),
        decreases n - at,
    {
        classes.push(byte_class(spans, &kinds, at));
        at = at + 1;
    }
    assert(classes@ =~= byte_classes(span_views(spans@), n as nat));
    classes
}

/// The runs of a text with spans: they cover all of it, the span of the latest rule wins
/// where several overlap, what no span covers is plain, and neighbours of one class are one
/// run. Nothing where the classes change within a character.
pub fn spans_to_tokens(text: &str, spans: Vec<Span>) -> (r: Option<Vec<Token>>)
    ensures
        opt_tokens(r) == tokens_with(text@, span_views(spans@)),
{
    let bytes = text.as_bytes();
    let n: usize = bytes.len();
    let classes = classes_of_bytes(&spans, n);
    let mut out: Vec<Token> = Vec::new();
    let mut a: usize = 0;
    assert(token_views(out@) =~= seq![]);
    while a < n
        invariant
            a <= n,
            n == bytes@.len(),
            n == classes@.len(),
            bytes@ == encode_utf8(text@),
            classes@ == byte_classes(span_views(spans@), n as nat),
            0 < a < n ==> classes@[a as int] != classes@[a - 1],
            runs_to(bytes@, classes@, a as int) == Some(token_views(out@)),
        decreases n - a,
    {
        let mut b: usize = a + 1;
        while b < n && classes[b] == classes[a]
            invariant
                a < b <= n,
                n == classes@.len(),
                run_start(classes@, b as int) == a,
                classes@[b - 1] == classes@[a as int],
            decreases n - b,
        {
            b = b + 1;
        }
        if !push_piece(&mut out, bytes, a, b, classes[a]) {
            proof {
                lemma_cut_stays(bytes@, classes@, b as int, n as int);
            }
            return None;
        }
        a = b;
    }
    Some(out)
}

/// Highlights text.
pub struct TokenHighlighter {
    inner: arborium::Highlighter,
}

/// The runs of a text in a language. Without spans it is plain.
pub open spec fn tokens_of(lang: Seq<char>, text: Seq<char>) -> Option<Seq<TokenView>> {
    match spans_in(lang, text) {
        Some(spans) => tokens_with(text, spans),
        None => Some(plain_tokens(text)),
    }
}

/// The runs of a text, given what a highlighter found.
pub fn tokens_from(text: &str, found: Option<Vec<Span>>) -> (r: Option<Vec<Token>>)
    ensures
        opt_tokens(r) == (match found {
            Some(spans) => tokens_with(text@, span_views(spans@)),
            None => Some(plain_tokens(text@)),
        }),
{
    match found {
        Some(spans) => spans_to_tokens(text, spans),
        None => Some(plain(text)),
    }
}

impl TokenHighlighter {
    /// A highlighter with the built-in grammars.
    pub fn new() -> (h: Self) {
        TokenHighlighter { inner: arborium::Highlighter::new() }
    }

    /// A highlighter for source text.
    pub fn new_for_source() -> (h: Self) {
        TokenHighlighter::new()
    }

    /// Calls `arborium::Highlighter::highlight_spans`, on a highlighter that
    /// `arborium::Highlighter::new` made: there are no others behind this type. Each call
    /// parses its text anew.
    #[verifier::external_body]
    fn spans(&mut self, lang: &str, text: &str) -> (r: Option<Vec<Span>>)
        ensures
            (match r {
                Some(s) => Some(span_views(s@)),
                None => None,
            }) == spans_in(lang@, text@),
    {
        let spans = self.inner.highlight_spans(lang, text).ok()?;
        let mut out = Vec::new();
        for s in spans {
            out.push(Span { start: s.start, end: s.end, capture: s.capture, pattern_index: s.pattern_index });
        }
        Some(out)
    }

    /// The runs of a text in a language, where all spans begin and end between characters.
    pub fn highlight_in(&mut self, lang: &str, text: &str) -> (r: Option<Vec<Token>>)
        ensures
            opt_tokens(r) == tokens_of(lang@, text@),
    {
        let found = self.spans(lang, text);
        tokens_from(text, found)
    }

    /// The runs of a line of assembly.
    pub fn highlight_line(&mut self, line: &str) -> (r: Option<Vec<Token>>)
        ensures
            opt_tokens(r) == tokens_of("asm"@, line@),
    {
        self.highlight_in("asm", line)
    }
}

impl Default for TokenHighlighter {
    fn default() -> (h: Self) {
        TokenHighlighter::new()
    }
}

/// The text of runs, one behind the other.
pub open spec fn joined_text(t: Seq<TokenView>) -> Seq<char>
    decreases t.len(),
{
    if t.len() == 0 {
        seq![]
    } else {
        joined_text(t.drop_last()) + t.last().text
    }
}

/// The text goes on where the run is added.
proof fn lemma_joined_with_run(out: Seq<TokenView>, text: Seq<char>, kind: TokenClass)
    ensures
        joined_text(with_run(out, text, kind)) == joined_text(out) + text,
{
    let after = with_run(out, text, kind);
    if text.len() == 0 {
        assert(joined_text(out) + text =~= joined_text(out));
    } else if out.len() > 0 && out.last().kind == kind {
        assert(after.drop_last() =~= out.drop_last());
        assert(joined_text(out.drop_last()) + (out.last().text + text) =~= joined_text(
            out.drop_last(),
        ) + out.last().text + text);
    } else {
        assert(after.drop_last() =~= out);
    }
}

/// The bytes of two texts, one behind the other.
proof fn lemma_encode_concat(a: Seq<char>, b: Seq<char>)
    ensures
        encode_utf8(a + b) == encode_utf8(a) + encode_utf8(b),
    decreases a.len(),
{
    if a.len() == 0 {
        assert(a + b =~= b);
        assert(encode_utf8(a) =~= seq![]);
        assert(encode_utf8(a) + encode_utf8(b) =~= encode_utf8(b));
    } else {
        assert((a + b).drop_first() =~= a.drop_first() + b);
        lemma_encode_concat(a.drop_first(), b);
        assert(encode_scalar(a[0] as u32) + (encode_utf8(a.drop_first()) + encode_utf8(b))
            =~= encode_scalar(a[0] as u32) + encode_utf8(a.drop_first()) + encode_utf8(b));
    }
}

/// No run is empty, and neighbours are of different classes.
pub open spec fn tight(t: Seq<TokenView>) -> bool {
    &&& forall|i: int| 0 <= i < t.len() ==> (#[trigger] t[i]).text.len() > 0
    &&& forall|i: int, j: int|
        0 <= i < j < t.len() && j == i + 1 ==> (#[trigger] t[i]).kind != (#[trigger] t[j]).kind
}

proof fn lemma_tight_with_run(out: Seq<TokenView>, text: Seq<char>, kind: TokenClass)
    requires
        tight(out),
    ensures
        tight(with_run(out, text, kind)),
{
    let after = with_run(out, text, kind);
    assert forall|i: int, j: int| 0 <= i < j < after.len() && j == i + 1 implies (
    #[trigger] after[i]).kind != (#[trigger] after[j]).kind by {
        assert(after[i].kind == out[i].kind);
        if j < out.len() {
            assert(after[j].kind == out[j].kind);
        }
    }
    assert forall|i: int| 0 <= i < after.len() implies (#[trigger] after[i]).text.len() > 0 by {
        if i < out.len() {
            assert(out[i].text.len() > 0);
        }
    }
}

/// The runs hold the first `n` bytes, and are tight.
proof fn lemma_runs_to(bytes: Seq<u8>, classes: Seq<TokenClass>, n: int)
    requires
        0 <= n <= bytes.len(),
    ensures
        runs_to(bytes, classes, n) matches Some(t) ==> encode_utf8(joined_text(t)) == bytes.take(n)
            && tight(t),
    decreases n,
{
    if n == 0 {
        assert(bytes.take(0) =~= seq![]);
        assert(encode_utf8(joined_text(seq![])) =~= seq![]);
    } else {
        lemma_run_start(classes, n, 0);
        let a = run_start(classes, n);
        lemma_runs_to(bytes, classes, a);
        match runs_to(bytes, classes, a) {
            Some(t) => {
                if is_piece(bytes, a, n) {
                    let p = piece(bytes, a, n);
                    lemma_joined_with_run(t, p, classes[a]);
                    lemma_encode_concat(joined_text(t), p);
                    decode_utf8_encode_utf8(bytes.subrange(a, n));
                    assert(bytes.take(a) + bytes.subrange(a, n) =~= bytes.take(n));
                    lemma_tight_with_run(t, p, classes[a]);
                }
            },
            None => {},
        }
    }
}

/// The law of highlighting: the runs, one behind the other, are the text.
pub proof fn highlighting_loses_nothing(text: Seq<char>, spans: Seq<SpanView>)
    requires
        tokens_with(text, spans) is Some,
    ensures
        joined_text(tokens_with(text, spans).unwrap()) == text,
{
    let bytes = encode_utf8(text);
    lemma_runs_to(bytes, byte_classes(spans, bytes.len()), bytes.len() as int);
    assert(bytes.take(bytes.len() as int) =~= bytes);
    let out = tokens_with(text, spans).unwrap();
    encode_utf8_decode_utf8(joined_text(out));
    encode_utf8_decode_utf8(text);
}

/// The law of runs: none is empty, and neighbours are of different classes.
pub proof fn runs_are_coalesced(text: Seq<char>, spans: Seq<SpanView>)
    requires
        tokens_with(text, spans) is Some,
    ensures
        tight(tokens_with(text, spans).unwrap()),
{
    let bytes = encode_utf8(text);
    lemma_runs_to(bytes, byte_classes(spans, bytes.len()), bytes.len() as int);
}

/// The law of overlaps: a byte that some span covers has the class of a span that covers it,
/// and no span that covers it is of a later rule.
pub proof fn latest_rule_wins(spans: Seq<SpanView>, at: int, k: int)
    requires
        0 <= k < spans.len(),
        covers(spans[k], at),
    ensures
        top_span(spans, at) matches Some(s) && spans.contains(s) && covers(s, at)
            && s.pattern_index >= spans[k].pattern_index && class_at(spans, at) == capture_class(
            s.capture,
        ),
    decreases spans.len(),
{
    let init = spans.drop_last();
    lemma_top_span(init, at);
    if k < spans.len() - 1 {
        latest_rule_wins(init, at, k);
    }
    lemma_top_span(spans, at);
}

/// The span that decides is one that covers.
proof fn lemma_top_span(spans: Seq<SpanView>, at: int)
    ensures
        top_span(spans, at) matches Some(s) ==> spans.contains(s) && covers(s, at),
    decreases spans.len(),
{
    if spans.len() > 0 {
        let init = spans.drop_last();
        lemma_top_span(init, at);
        match top_span(init, at) {
            Some(s) => {
                let i = choose|i: int| 0 <= i < init.len() && init[i] == s;
                assert(spans[i] == s);
            },
            None => {},
        }
        assert(spans[spans.len() - 1] == spans.last());
    }
}

/// Bytes of one class are one run.
proof fn lemma_one_run(classes: Seq<TokenClass>, n: int)
    requires
        0 <= n <= classes.len(),
        forall|i: int| 0 <= i < n ==> #[trigger] classes[i] == classes[0],
    ensures
        run_start(classes, n) == 0,
    decreases n,
{
    if n > 1 {
        lemma_one_run(classes, n - 1);
    }
}

/// The law of text without spans: all of it is one plain run.
pub proof fn text_without_spans_is_plain(text: Seq<char>)
    ensures
        tokens_with(text, seq![]) == Some(plain_tokens(text)),
{
    let bytes = encode_utf8(text);
    let classes = byte_classes(seq![], bytes.len());
    encode_utf8_decode_utf8(text);
    encode_utf8_valid_utf8(text);
    lemma_one_run(classes, bytes.len() as int);
    assert(bytes.subrange(0, bytes.len() as int) =~= bytes);
    if text.len() == 0 {
        assert(bytes =~= seq![]);
    } else if bytes.len() == 0 {
        assert(encode_utf8(seq![]) =~= bytes);
        encode_utf8_decode_utf8(seq![]);
    } else {
        assert(runs_to(bytes, classes, 0) == Some(Seq::<TokenView>::empty()));
        assert(with_run(seq![], text, TokenClass::Plain) =~= plain_tokens(text));
    }
}

/// The place lies between two characters of the text, at one of its ends or behind it.
pub open spec fn between_characters(text: Seq<char>, at: int) -> bool {
    let bytes = encode_utf8(text);
    at >= bytes.len() || is_char_boundary(bytes, at)
}

/// The span cuts no character of the text: it covers nothing, or begins and ends between
/// characters.
pub open spec fn cuts_no_character(text: Seq<char>, span: SpanView) -> bool {
    span.start < span.end ==> between_characters(text, span.start as int) && between_characters(
        text,
        span.end as int,
    )
}

/// The span begins or ends at the place.
spec fn turns_at(span: SpanView, at: int) -> bool {
    span.start < span.end && (span.start == at || span.end == at)
}

/// Where no span begins or ends, the byte is of the class of the one before it.
proof fn lemma_class_goes_on(spans: Seq<SpanView>, at: int)
    requires
        forall|k: int| 0 <= k < spans.len() ==> !turns_at(#[trigger] spans[k], at),
    ensures
        top_span(spans, at) == top_span(spans, at - 1),
    decreases spans.len(),
{
    if spans.len() > 0 {
        let init = spans.drop_last();
        assert forall|k: int| 0 <= k < init.len() implies !turns_at(#[trigger] init[k], at) by {
            assert(init[k] == spans[k]);
        }
        lemma_class_goes_on(init, at);
        assert(!turns_at(spans[spans.len() - 1], at));
    }
}

/// The class changes where a run begins.
proof fn lemma_class_changes(classes: Seq<TokenClass>, n: int)
    requires
        0 < n,
    ensures
        0 <= run_start(classes, n) < n,
        run_start(classes, n) == 0 || classes[run_start(classes, n)] != classes[run_start(
            classes,
            n,
        ) - 1],
    decreases n,
{
    if n > 1 && classes[n - 1] == classes[n - 2] {
        lemma_class_changes(classes, n - 1);
    }
}

/// The bytes between two places between characters are text.
proof fn lemma_between_is_piece(bytes: Seq<u8>, a: int, b: int)
    requires
        valid_utf8(bytes),
        0 <= a <= b <= bytes.len(),
        is_char_boundary(bytes, a),
        is_char_boundary(bytes, b),
    ensures
        is_piece(bytes, a, b),
{
    let head = bytes.subrange(0, b);
    valid_utf8_split(bytes, a);
    valid_utf8_split(bytes, b);
    assert(head.subrange(0, a) =~= bytes.subrange(0, a));
    assert(head.subrange(a, b) =~= bytes.subrange(a, b));
    if !valid_utf8(head.subrange(a, b)) {
        partial_valid_partial_invalid_utf8(head, a);
    }
}

/// There are runs up to every place where one begins or the text ends.
proof fn lemma_runs_are_there(text: Seq<char>, spans: Seq<SpanView>, n: int)
    requires
        forall|k: int| 0 <= k < spans.len() ==> cuts_no_character(text, #[trigger] spans[k]),
        0 <= n <= encode_utf8(text).len(),
        is_char_boundary(encode_utf8(text), n),
    ensures
        runs_to(encode_utf8(text), byte_classes(spans, encode_utf8(text).len()), n) is Some,
    decreases n,
{
    let bytes = encode_utf8(text);
    let classes = byte_classes(spans, bytes.len());
    encode_utf8_valid_utf8(text);
    if n > 0 {
        lemma_class_changes(classes, n);
        let a = run_start(classes, n);
        is_char_boundary_start_end_of_seq(bytes);
        if a > 0 {
            assert(class_at(spans, a) != class_at(spans, a - 1));
            if forall|k: int| 0 <= k < spans.len() ==> !turns_at(#[trigger] spans[k], a) {
                lemma_class_goes_on(spans, a);
            }
            let k = choose|k: int| 0 <= k < spans.len() && turns_at(#[trigger] spans[k], a);
            assert(cuts_no_character(text, spans[k]));
        }
        assert(is_char_boundary(bytes, a));
        lemma_runs_are_there(text, spans, a);
        lemma_between_is_piece(bytes, a, n);
    }
}

/// The law of whole characters: spans that begin and end between characters give runs.
pub proof fn whole_characters_give_runs(text: Seq<char>, spans: Seq<SpanView>)
    requires
        forall|k: int| 0 <= k < spans.len() ==> cuts_no_character(text, #[trigger] spans[k]),
    ensures
        tokens_with(text, spans) is Some,
{
    let bytes = encode_utf8(text);
    encode_utf8_valid_utf8(text);
    is_char_boundary_start_end_of_seq(bytes);
    lemma_runs_are_there(text, spans, bytes.len() as int);
}

/// Names that differ in length or in a character differ.
proof fn lemma_differ(a: Seq<char>, b: Seq<char>, k: int)
    requires
        a.len() != b.len() || (0 <= k < a.len() && a[k] != b[k]),
    ensures
        a != b,
{
}

/// The law of slots: each names its class, and any other name is plain.
#[verifier::spinoff_prover]
#[verifier::rlimit(60)]
pub proof fn slots_have_their_class(slot: Seq<char>)
    ensures
        slot == "Keyword"@ ==> slot_class(slot) == TokenClass::Keyword,
        slot == "Function"@ ==> slot_class(slot) == TokenClass::Function,
        slot == "String"@ ==> slot_class(slot) == TokenClass::String,
        slot == "Comment"@ ==> slot_class(slot) == TokenClass::Comment,
        slot == "Type"@ ==> slot_class(slot) == TokenClass::Type,
        slot == "Variable"@ ==> slot_class(slot) == TokenClass::Variable,
        slot == "Constant"@ ==> slot_class(slot) == TokenClass::Constant,
        slot == "Number"@ ==> slot_class(slot) == TokenClass::Number,
        slot == "Operator"@ ==> slot_class(slot) == TokenClass::Operator,
        slot == "Punctuation"@ ==> slot_class(slot) == TokenClass::Punctuation,
        slot == "Property"@ ==> slot_class(slot) == TokenClass::Property,
        slot == "Attribute"@ ==> slot_class(slot) == TokenClass::Attribute,
        slot == "Tag"@ ==> slot_class(slot) == TokenClass::Tag,
        slot == "Macro"@ ==> slot_class(slot) == TokenClass::Macro,
        slot == "Label"@ ==> slot_class(slot) == TokenClass::Label,
        slot == "Namespace"@ ==> slot_class(slot) == TokenClass::Namespace,
        slot == "Constructor"@ ==> slot_class(slot) == TokenClass::Constructor,
        slot == "Title"@ ==> slot_class(slot) == TokenClass::Title,
        slot == "Strong"@ ==> slot_class(slot) == TokenClass::Strong,
        slot == "Emphasis"@ ==> slot_class(slot) == TokenClass::Emphasis,
        slot == "Link"@ ==> slot_class(slot) == TokenClass::Link,
        slot == "Literal"@ ==> slot_class(slot) == TokenClass::Literal,
        slot == "Strikethrough"@ ==> slot_class(slot) == TokenClass::Strikethrough,
        slot == "DiffAdd"@ ==> slot_class(slot) == TokenClass::DiffAdd,
        slot == "DiffDelete"@ ==> slot_class(slot) == TokenClass::DiffDelete,
        slot == "Embedded"@ ==> slot_class(slot) == TokenClass::Embedded,
        slot == "Error"@ ==> slot_class(slot) == TokenClass::Error,
        !({
            ||| slot == "Keyword"@
            ||| slot == "Function"@
            ||| slot == "String"@
            ||| slot == "Comment"@
            ||| slot == "Type"@
            ||| slot == "Variable"@
            ||| slot == "Constant"@
            ||| slot == "Number"@
            ||| slot == "Operator"@
            ||| slot == "Punctuation"@
            ||| slot == "Property"@
            ||| slot == "Attribute"@
            ||| slot == "Tag"@
            ||| slot == "Macro"@
            ||| slot == "Label"@
            ||| slot == "Namespace"@
            ||| slot == "Constructor"@
            ||| slot == "Title"@
            ||| slot == "Strong"@
            ||| slot == "Emphasis"@
            ||| slot == "Link"@
            ||| slot == "Literal"@
            ||| slot == "Strikethrough"@
            ||| slot == "DiffAdd"@
            ||| slot == "DiffDelete"@
            ||| slot == "Embedded"@
            ||| slot == "Error"@
        }) ==> slot_class(slot) == TokenClass::Plain,
{
    reveal(slot_class);
    reveal_strlit("Keyword");
    reveal_strlit("Function");
    reveal_strlit("String");
    reveal_strlit("Comment");
    reveal_strlit("Type");
    reveal_strlit("Variable");
    reveal_strlit("Constant");
    reveal_strlit("Number");
    reveal_strlit("Operator");
    reveal_strlit("Punctuation");
    reveal_strlit("Property");
    reveal_strlit("Attribute");
    reveal_strlit("Tag");
    reveal_strlit("Macro");
    reveal_strlit("Label");
    reveal_strlit("Namespace");
    reveal_strlit("Constructor");
    reveal_strlit("Title");
    reveal_strlit("Strong");
    reveal_strlit("Emphasis");
    reveal_strlit("Link");
    reveal_strlit("Literal");
    reveal_strlit("Strikethrough");
    reveal_strlit("DiffAdd");
    reveal_strlit("DiffDelete");
    reveal_strlit("Embedded");
    reveal_strlit("Error");
    assert("Keyword"@.len() == 7);
    assert("Function"@.len() == 8);
    assert("String"@.len() == 6);
    assert("Comment"@.len() == 7);
    assert("Type"@.len() == 4);
    assert("Variable"@.len() == 8);
    assert("Constant"@.len() == 8);
    assert("Number"@.len() == 6);
    assert("Operator"@.len() == 8);
    assert("Punctuation"@.len() == 11);
    assert("Property"@.len() == 8);
    assert("Attribute"@.len() == 9);
    assert("Tag"@.len() == 3);
    assert("Macro"@.len() == 5);
    assert("Label"@.len() == 5);
    assert("Namespace"@.len() == 9);
    assert("Constructor"@.len() == 11);
    assert("Title"@.len() == 5);
    assert("Strong"@.len() == 6);
    assert("Emphasis"@.len() == 8);
    assert("Link"@.len() == 4);
    assert("Literal"@.len() == 7);
    assert("Strikethrough"@.len() == 13);
    assert("DiffAdd"@.len() == 7);
    assert("DiffDelete"@.len() == 10);
    assert("Embedded"@.len() == 8);
    assert("Error"@.len() == 5);
    assert("Comment"@[0] == 'C' && "Keyword"@[0] == 'K');
    assert("Variable"@[0] == 'V' && "Function"@[0] == 'F');
    assert("Constant"@[0] == 'C' && "Function"@[0] == 'F');
    assert("Constant"@[0] == 'C' && "Variable"@[0] == 'V');
    assert("Number"@[0] == 'N' && "String"@[0] == 'S');
    assert("Operator"@[0] == 'O' && "Function"@[0] == 'F');
    assert("Operator"@[0] == 'O' && "Variable"@[0] == 'V');
    assert("Operator"@[0] == 'O' && "Constant"@[0] == 'C');
    assert("Property"@[0] == 'P' && "Function"@[0] == 'F');
    assert("Property"@[0] == 'P' && "Variable"@[0] == 'V');
    assert("Property"@[0] == 'P' && "Constant"@[0] == 'C');
    assert("Property"@[0] == 'P' && "Operator"@[0] == 'O');
    assert("Label"@[0] == 'L' && "Macro"@[0] == 'M');
    assert("Namespace"@[0] == 'N' && "Attribute"@[0] == 'A');
    assert("Constructor"@[0] == 'C' && "Punctuation"@[0] == 'P');
    assert("Title"@[0] == 'T' && "Macro"@[0] == 'M');
    assert("Title"@[0] == 'T' && "Label"@[0] == 'L');
    assert("Strong"@[3] == 'o' && "String"@[3] == 'i');
    assert("Strong"@[0] == 'S' && "Number"@[0] == 'N');
    assert("Emphasis"@[0] == 'E' && "Function"@[0] == 'F');
    assert("Emphasis"@[0] == 'E' && "Variable"@[0] == 'V');
    assert("Emphasis"@[0] == 'E' && "Constant"@[0] == 'C');
    assert("Emphasis"@[0] == 'E' && "Operator"@[0] == 'O');
    assert("Emphasis"@[0] == 'E' && "Property"@[0] == 'P');
    assert("Link"@[0] == 'L' && "Type"@[0] == 'T');
    assert("Literal"@[0] == 'L' && "Keyword"@[0] == 'K');
    assert("Literal"@[0] == 'L' && "Comment"@[0] == 'C');
    assert("DiffAdd"@[0] == 'D' && "Keyword"@[0] == 'K');
    assert("DiffAdd"@[0] == 'D' && "Comment"@[0] == 'C');
    assert("DiffAdd"@[0] == 'D' && "Literal"@[0] == 'L');
    assert("Embedded"@[0] == 'E' && "Function"@[0] == 'F');
    assert("Embedded"@[0] == 'E' && "Variable"@[0] == 'V');
    assert("Embedded"@[0] == 'E' && "Constant"@[0] == 'C');
    assert("Embedded"@[0] == 'E' && "Operator"@[0] == 'O');
    assert("Embedded"@[0] == 'E' && "Property"@[0] == 'P');
    assert("Embedded"@[2] == 'b' && "Emphasis"@[2] == 'p');
    assert("Error"@[0] == 'E' && "Macro"@[0] == 'M');
    assert("Error"@[0] == 'E' && "Label"@[0] == 'L');
    assert("Error"@[0] == 'E' && "Title"@[0] == 'T');
    if slot == "Function"@ {
        lemma_differ("Function"@, "Keyword"@, 0);
        assert(slot_class(slot) == TokenClass::Function);
    }
    if slot == "String"@ {
        lemma_differ("String"@, "Keyword"@, 0);
        lemma_differ("String"@, "Function"@, 0);
        assert(slot_class(slot) == TokenClass::String);
    }
    if slot == "Comment"@ {
        lemma_differ("Comment"@, "Keyword"@, 0);
        lemma_differ("Comment"@, "Function"@, 0);
        lemma_differ("Comment"@, "String"@, 0);
        assert(slot_class(slot) == TokenClass::Comment);
    }
    if slot == "Type"@ {
        lemma_differ("Type"@, "Keyword"@, 0);
        lemma_differ("Type"@, "Function"@, 0);
        lemma_differ("Type"@, "String"@, 0);
        lemma_differ("Type"@, "Comment"@, 0);
        assert(slot_class(slot) == TokenClass::Type);
    }
    if slot == "Variable"@ {
        lemma_differ("Variable"@, "Keyword"@, 0);
        lemma_differ("Variable"@, "Function"@, 0);
        lemma_differ("Variable"@, "String"@, 0);
        lemma_differ("Variable"@, "Comment"@, 0);
        lemma_differ("Variable"@, "Type"@, 0);
        assert(slot_class(slot) == TokenClass::Variable);
    }
    if slot == "Constant"@ {
        lemma_differ("Constant"@, "Keyword"@, 0);
        lemma_differ("Constant"@, "Function"@, 0);
        lemma_differ("Constant"@, "String"@, 0);
        lemma_differ("Constant"@, "Comment"@, 0);
        lemma_differ("Constant"@, "Type"@, 0);
        lemma_differ("Constant"@, "Variable"@, 0);
        assert(slot_class(slot) == TokenClass::Constant);
    }
    if slot == "Number"@ {
        lemma_differ("Number"@, "Keyword"@, 0);
        lemma_differ("Number"@, "Function"@, 0);
        lemma_differ("Number"@, "String"@, 0);
        lemma_differ("Number"@, "Comment"@, 0);
        lemma_differ("Number"@, "Type"@, 0);
        lemma_differ("Number"@, "Variable"@, 0);
        lemma_differ("Number"@, "Constant"@, 0);
        assert(slot_class(slot) == TokenClass::Number);
    }
    if slot == "Operator"@ {
        lemma_differ("Operator"@, "Keyword"@, 0);
        lemma_differ("Operator"@, "Function"@, 0);
        lemma_differ("Operator"@, "String"@, 0);
        lemma_differ("Operator"@, "Comment"@, 0);
        lemma_differ("Operator"@, "Type"@, 0);
        lemma_differ("Operator"@, "Variable"@, 0);
        lemma_differ("Operator"@, "Constant"@, 0);
        lemma_differ("Operator"@, "Number"@, 0);
        assert(slot_class(slot) == TokenClass::Operator);
    }
    if slot == "Punctuation"@ {
        lemma_differ("Punctuation"@, "Keyword"@, 0);
        lemma_differ("Punctuation"@, "Function"@, 0);
        lemma_differ("Punctuation"@, "String"@, 0);
        lemma_differ("Punctuation"@, "Comment"@, 0);
        lemma_differ("Punctuation"@, "Type"@, 0);
        lemma_differ("Punctuation"@, "Variable"@, 0);
        lemma_differ("Punctuation"@, "Constant"@, 0);
        lemma_differ("Punctuation"@, "Number"@, 0);
        lemma_differ("Punctuation"@, "Operator"@, 0);
        assert(slot_class(slot) == TokenClass::Punctuation);
    }
    if slot == "Property"@ {
        lemma_differ("Property"@, "Keyword"@, 0);
        lemma_differ("Property"@, "Function"@, 0);
        lemma_differ("Property"@, "String"@, 0);
        lemma_differ("Property"@, "Comment"@, 0);
        lemma_differ("Property"@, "Type"@, 0);
        lemma_differ("Property"@, "Variable"@, 0);
        lemma_differ("Property"@, "Constant"@, 0);
        lemma_differ("Property"@, "Number"@, 0);
        lemma_differ("Property"@, "Operator"@, 0);
        lemma_differ("Property"@, "Punctuation"@, 0);
        assert(slot_class(slot) == TokenClass::Property);
    }
    if slot == "Attribute"@ {
        lemma_differ("Attribute"@, "Keyword"@, 0);
        lemma_differ("Attribute"@, "Function"@, 0);
        lemma_differ("Attribute"@, "String"@, 0);
        lemma_differ("Attribute"@, "Comment"@, 0);
        lemma_differ("Attribute"@, "Type"@, 0);
        lemma_differ("Attribute"@, "Variable"@, 0);
        lemma_differ("Attribute"@, "Constant"@, 0);
        lemma_differ("Attribute"@, "Number"@, 0);
        lemma_differ("Attribute"@, "Operator"@, 0);
        lemma_differ("Attribute"@, "Punctuation"@, 0);
        lemma_differ("Attribute"@, "Property"@, 0);
        assert(slot_class(slot) == TokenClass::Attribute);
    }
    if slot == "Tag"@ {
        lemma_differ("Tag"@, "Keyword"@, 0);
        lemma_differ("Tag"@, "Function"@, 0);
        lemma_differ("Tag"@, "String"@, 0);
        lemma_differ("Tag"@, "Comment"@, 0);
        lemma_differ("Tag"@, "Type"@, 0);
        lemma_differ("Tag"@, "Variable"@, 0);
        lemma_differ("Tag"@, "Constant"@, 0);
        lemma_differ("Tag"@, "Number"@, 0);
        lemma_differ("Tag"@, "Operator"@, 0);
        lemma_differ("Tag"@, "Punctuation"@, 0);
        lemma_differ("Tag"@, "Property"@, 0);
        lemma_differ("Tag"@, "Attribute"@, 0);
        assert(slot_class(slot) == TokenClass::Tag);
    }
    if slot == "Macro"@ {
        lemma_differ("Macro"@, "Keyword"@, 0);
        lemma_differ("Macro"@, "Function"@, 0);
        lemma_differ("Macro"@, "String"@, 0);
        lemma_differ("Macro"@, "Comment"@, 0);
        lemma_differ("Macro"@, "Type"@, 0);
        lemma_differ("Macro"@, "Variable"@, 0);
        lemma_differ("Macro"@, "Constant"@, 0);
        lemma_differ("Macro"@, "Number"@, 0);
        lemma_differ("Macro"@, "Operator"@, 0);
        lemma_differ("Macro"@, "Punctuation"@, 0);
        lemma_differ("Macro"@, "Property"@, 0);
        lemma_differ("Macro"@, "Attribute"@, 0);
        lemma_differ("Macro"@, "Tag"@, 0);
        assert(slot_class(slot) == TokenClass::Macro);
    }
    if slot == "Label"@ {
        lemma_differ("Label"@, "Keyword"@, 0);
        lemma_differ("Label"@, "Function"@, 0);
        lemma_differ("Label"@, "String"@, 0);
        lemma_differ("Label"@, "Comment"@, 0);
        lemma_differ("Label"@, "Type"@, 0);
        lemma_differ("Label"@, "Variable"@, 0);
        lemma_differ("Label"@, "Constant"@, 0);
        lemma_differ("Label"@, "Number"@, 0);
        lemma_differ("Label"@, "Operator"@, 0);
        lemma_differ("Label"@, "Punctuation"@, 0);
        lemma_differ("Label"@, "Property"@, 0);
        lemma_differ("Label"@, "Attribute"@, 0);
        lemma_differ("Label"@, "Tag"@, 0);
        lemma_differ("Label"@, "Macro"@, 0);
        assert(slot_class(slot) == TokenClass::Label);
    }
    if slot == "Namespace"@ {
        lemma_differ("Namespace"@, "Keyword"@, 0);
        lemma_differ("Namespace"@, "Function"@, 0);
        lemma_differ("Namespace"@, "String"@, 0);
        lemma_differ("Namespace"@, "Comment"@, 0);
        lemma_differ("Namespace"@, "Type"@, 0);
        lemma_differ("Namespace"@, "Variable"@, 0);
        lemma_differ("Namespace"@, "Constant"@, 0);
        lemma_differ("Namespace"@, "Number"@, 0);
        lemma_differ("Namespace"@, "Operator"@, 0);
        lemma_differ("Namespace"@, "Punctuation"@, 0);
        lemma_differ("Namespace"@, "Property"@, 0);
        lemma_differ("Namespace"@, "Attribute"@, 0);
        lemma_differ("Namespace"@, "Tag"@, 0);
        lemma_differ("Namespace"@, "Macro"@, 0);
        lemma_differ("Namespace"@, "Label"@, 0);
        assert(slot_class(slot) == TokenClass::Namespace);
    }
    if slot == "Constructor"@ {
        lemma_differ("Constructor"@, "Keyword"@, 0);
        lemma_differ("Constructor"@, "Function"@, 0);
        lemma_differ("Constructor"@, "String"@, 0);
        lemma_differ("Constructor"@, "Comment"@, 0);
        lemma_differ("Constructor"@, "Type"@, 0);
        lemma_differ("Constructor"@, "Variable"@, 0);
        lemma_differ("Constructor"@, "Constant"@, 0);
        lemma_differ("Constructor"@, "Number"@, 0);
        lemma_differ("Constructor"@, "Operator"@, 0);
        lemma_differ("Constructor"@, "Punctuation"@, 0);
        lemma_differ("Constructor"@, "Property"@, 0);
        lemma_differ("Constructor"@, "Attribute"@, 0);
        lemma_differ("Constructor"@, "Tag"@, 0);
        lemma_differ("Constructor"@, "Macro"@, 0);
        lemma_differ("Constructor"@, "Label"@, 0);
        lemma_differ("Constructor"@, "Namespace"@, 0);
        assert(slot_class(slot) == TokenClass::Constructor);
    }
    if slot == "Title"@ {
        lemma_differ("Title"@, "Keyword"@, 0);
        lemma_differ("Title"@, "Function"@, 0);
        lemma_differ("Title"@, "String"@, 0);
        lemma_differ("Title"@, "Comment"@, 0);
        lemma_differ("Title"@, "Type"@, 0);
        lemma_differ("Title"@, "Variable"@, 0);
        lemma_differ("Title"@, "Constant"@, 0);
        lemma_differ("Title"@, "Number"@, 0);
        lemma_differ("Title"@, "Operator"@, 0);
        lemma_differ("Title"@, "Punctuation"@, 0);
        lemma_differ("Title"@, "Property"@, 0);
        lemma_differ("Title"@, "Attribute"@, 0);
        lemma_differ("Title"@, "Tag"@, 0);
        lemma_differ("Title"@, "Macro"@, 0);
        lemma_differ("Title"@, "Label"@, 0);
        lemma_differ("Title"@, "Namespace"@, 0);
        lemma_differ("Title"@, "Constructor"@, 0);
        assert(slot_class(slot) == TokenClass::Title);
    }
    if slot == "Strong"@ {
        lemma_differ("Strong"@, "Keyword"@, 0);
        lemma_differ("Strong"@, "Function"@, 0);
        lemma_differ("Strong"@, "String"@, 3);
        lemma_differ("Strong"@, "Comment"@, 0);
        lemma_differ("Strong"@, "Type"@, 0);
        lemma_differ("Strong"@, "Variable"@, 0);
        lemma_differ("Strong"@, "Constant"@, 0);
        lemma_differ("Strong"@, "Number"@, 0);
        lemma_differ("Strong"@, "Operator"@, 0);
        lemma_differ("Strong"@, "Punctuation"@, 0);
        lemma_differ("Strong"@, "Property"@, 0);
        lemma_differ("Strong"@, "Attribute"@, 0);
        lemma_differ("Strong"@, "Tag"@, 0);
        lemma_differ("Strong"@, "Macro"@, 0);
        lemma_differ("Strong"@, "Label"@, 0);
        lemma_differ("Strong"@, "Namespace"@, 0);
        lemma_differ("Strong"@, "Constructor"@, 0);
        lemma_differ("Strong"@, "Title"@, 0);
        assert(slot_class(slot) == TokenClass::Strong);
    }
    if slot == "Emphasis"@ {
        lemma_differ("Emphasis"@, "Keyword"@, 0);
        lemma_differ("Emphasis"@, "Function"@, 0);
        lemma_differ("Emphasis"@, "String"@, 0);
        lemma_differ("Emphasis"@, "Comment"@, 0);
        lemma_differ("Emphasis"@, "Type"@, 0);
        lemma_differ("Emphasis"@, "Variable"@, 0);
        lemma_differ("Emphasis"@, "Constant"@, 0);
        lemma_differ("Emphasis"@, "Number"@, 0);
        lemma_differ("Emphasis"@, "Operator"@, 0);
        lemma_differ("Emphasis"@, "Punctuation"@, 0);
        lemma_differ("Emphasis"@, "Property"@, 0);
        lemma_differ("Emphasis"@, "Attribute"@, 0);
        lemma_differ("Emphasis"@, "Tag"@, 0);
        lemma_differ("Emphasis"@, "Macro"@, 0);
        lemma_differ("Emphasis"@, "Label"@, 0);
        lemma_differ("Emphasis"@, "Namespace"@, 0);
        lemma_differ("Emphasis"@, "Constructor"@, 0);
        lemma_differ("Emphasis"@, "Title"@, 0);
        lemma_differ("Emphasis"@, "Strong"@, 0);
        assert(slot_class(slot) == TokenClass::Emphasis);
    }
    if slot == "Link"@ {
        lemma_differ("Link"@, "Keyword"@, 0);
        lemma_differ("Link"@, "Function"@, 0);
        lemma_differ("Link"@, "String"@, 0);
        lemma_differ("Link"@, "Comment"@, 0);
        lemma_differ("Link"@, "Type"@, 0);
        lemma_differ("Link"@, "Variable"@, 0);
        lemma_differ("Link"@, "Constant"@, 0);
        lemma_differ("Link"@, "Number"@, 0);
        lemma_differ("Link"@, "Operator"@, 0);
        lemma_differ("Link"@, "Punctuation"@, 0);
        lemma_differ("Link"@, "Property"@, 0);
        lemma_differ("Link"@, "Attribute"@, 0);
        lemma_differ("Link"@, "Tag"@, 0);
        lemma_differ("Link"@, "Macro"@, 0);
        lemma_differ("Link"@, "Label"@, 0);
        lemma_differ("Link"@, "Namespace"@, 0);
        lemma_differ("Link"@, "Constructor"@, 0);
        lemma_differ("Link"@, "Title"@, 0);
        lemma_differ("Link"@, "Strong"@, 0);
        lemma_differ("Link"@, "Emphasis"@, 0);
        assert(slot_class(slot) == TokenClass::Link);
    }
    if slot == "Literal"@ {
        lemma_differ("Literal"@, "Keyword"@, 0);
        lemma_differ("Literal"@, "Function"@, 0);
        lemma_differ("Literal"@, "String"@, 0);
        lemma_differ("Literal"@, "Comment"@, 0);
        lemma_differ("Literal"@, "Type"@, 0);
        lemma_differ("Literal"@, "Variable"@, 0);
        lemma_differ("Literal"@, "Constant"@, 0);
        lemma_differ("Literal"@, "Number"@, 0);
        lemma_differ("Literal"@, "Operator"@, 0);
        lemma_differ("Literal"@, "Punctuation"@, 0);
        lemma_differ("Literal"@, "Property"@, 0);
        lemma_differ("Literal"@, "Attribute"@, 0);
        lemma_differ("Literal"@, "Tag"@, 0);
        lemma_differ("Literal"@, "Macro"@, 0);
        lemma_differ("Literal"@, "Label"@, 0);
        lemma_differ("Literal"@, "Namespace"@, 0);
        lemma_differ("Literal"@, "Constructor"@, 0);
        lemma_differ("Literal"@, "Title"@, 0);
        lemma_differ("Literal"@, "Strong"@, 0);
        lemma_differ("Literal"@, "Emphasis"@, 0);
        lemma_differ("Literal"@, "Link"@, 0);
        assert(slot_class(slot) == TokenClass::Literal);
    }
    if slot == "Strikethrough"@ {
        lemma_differ("Strikethrough"@, "Keyword"@, 0);
        lemma_differ("Strikethrough"@, "Function"@, 0);
        lemma_differ("Strikethrough"@, "String"@, 0);
        lemma_differ("Strikethrough"@, "Comment"@, 0);
        lemma_differ("Strikethrough"@, "Type"@, 0);
        lemma_differ("Strikethrough"@, "Variable"@, 0);
        lemma_differ("Strikethrough"@, "Constant"@, 0);
        lemma_differ("Strikethrough"@, "Number"@, 0);
        lemma_differ("Strikethrough"@, "Operator"@, 0);
        lemma_differ("Strikethrough"@, "Punctuation"@, 0);
        lemma_differ("Strikethrough"@, "Property"@, 0);
        lemma_differ("Strikethrough"@, "Attribute"@, 0);
        lemma_differ("Strikethrough"@, "Tag"@, 0);
        lemma_differ("Strikethrough"@, "Macro"@, 0);
        lemma_differ("Strikethrough"@, "Label"@, 0);
        lemma_differ("Strikethrough"@, "Namespace"@, 0);
        lemma_differ("Strikethrough"@, "Constructor"@, 0);
        lemma_differ("Strikethrough"@, "Title"@, 0);
        lemma_differ("Strikethrough"@, "Strong"@, 0);
        lemma_differ("Strikethrough"@, "Emphasis"@, 0);
        lemma_differ("Strikethrough"@, "Link"@, 0);
        lemma_differ("Strikethrough"@, "Literal"@, 0);
        assert(slot_class(slot) == TokenClass::Strikethrough);
    }
    if slot == "DiffAdd"@ {
        lemma_differ("DiffAdd"@, "Keyword"@, 0);
        lemma_differ("DiffAdd"@, "Function"@, 0);
        lemma_differ("DiffAdd"@, "String"@, 0);
        lemma_differ("DiffAdd"@, "Comment"@, 0);
        lemma_differ("DiffAdd"@, "Type"@, 0);
        lemma_differ("DiffAdd"@, "Variable"@, 0);
        lemma_differ("DiffAdd"@, "Constant"@, 0);
        lemma_differ("DiffAdd"@, "Number"@, 0);
        lemma_differ("DiffAdd"@, "Operator"@, 0);
        lemma_differ("DiffAdd"@, "Punctuation"@, 0);
        lemma_differ("DiffAdd"@, "Property"@, 0);
        lemma_differ("DiffAdd"@, "Attribute"@, 0);
        lemma_differ("DiffAdd"@, "Tag"@, 0);
        lemma_differ("DiffAdd"@, "Macro"@, 0);
        lemma_differ("DiffAdd"@, "Label"@, 0);
        lemma_differ("DiffAdd"@, "Namespace"@, 0);
        lemma_differ("DiffAdd"@, "Constructor"@, 0);
        lemma_differ("DiffAdd"@, "Title"@, 0);
        lemma_differ("DiffAdd"@, "Strong"@, 0);
        lemma_differ("DiffAdd"@, "Emphasis"@, 0);
        lemma_differ("DiffAdd"@, "Link"@, 0);
        lemma_differ("DiffAdd"@, "Literal"@, 0);
        lemma_differ("DiffAdd"@, "Strikethrough"@, 0);
        assert(slot_class(slot) == TokenClass::DiffAdd);
    }
    if slot == "DiffDelete"@ {
        lemma_differ("DiffDelete"@, "Keyword"@, 0);
        lemma_differ("DiffDelete"@, "Function"@, 0);
        lemma_differ("DiffDelete"@, "String"@, 0);
        lemma_differ("DiffDelete"@, "Comment"@, 0);
        lemma_differ("DiffDelete"@, "Type"@, 0);
        lemma_differ("DiffDelete"@, "Variable"@, 0);
        lemma_differ("DiffDelete"@, "Constant"@, 0);
        lemma_differ("DiffDelete"@, "Number"@, 0);
        lemma_differ("DiffDelete"@, "Operator"@, 0);
        lemma_differ("DiffDelete"@, "Punctuation"@, 0);
        lemma_differ("DiffDelete"@, "Property"@, 0);
        lemma_differ("DiffDelete"@, "Attribute"@, 0);
        lemma_differ("DiffDelete"@, "Tag"@, 0);
        lemma_differ("DiffDelete"@, "Macro"@, 0);
        lemma_differ("DiffDelete"@, "Label"@, 0);
        lemma_differ("DiffDelete"@, "Namespace"@, 0);
        lemma_differ("DiffDelete"@, "Constructor"@, 0);
        lemma_differ("DiffDelete"@, "Title"@, 0);
        lemma_differ("DiffDelete"@, "Strong"@, 0);
        lemma_differ("DiffDelete"@, "Emphasis"@, 0);
        lemma_differ("DiffDelete"@, "Link"@, 0);
        lemma_differ("DiffDelete"@, "Literal"@, 0);
        lemma_differ("DiffDelete"@, "Strikethrough"@, 0);
        lemma_differ("DiffDelete"@, "DiffAdd"@, 0);
        assert(slot_class(slot) == TokenClass::DiffDelete);
    }
    if slot == "Embedded"@ {
        lemma_differ("Embedded"@, "Keyword"@, 0);
        lemma_differ("Embedded"@, "Function"@, 0);
        lemma_differ("Embedded"@, "String"@, 0);
        lemma_differ("Embedded"@, "Comment"@, 0);
        lemma_differ("Embedded"@, "Type"@, 0);
        lemma_differ("Embedded"@, "Variable"@, 0);
        lemma_differ("Embedded"@, "Constant"@, 0);
        lemma_differ("Embedded"@, "Number"@, 0);
        lemma_differ("Embedded"@, "Operator"@, 0);
        lemma_differ("Embedded"@, "Punctuation"@, 0);
        lemma_differ("Embedded"@, "Property"@, 0);
        lemma_differ("Embedded"@, "Attribute"@, 0);
        lemma_differ("Embedded"@, "Tag"@, 0);
        lemma_differ("Embedded"@, "Macro"@, 0);
        lemma_differ("Embedded"@, "Label"@, 0);
        lemma_differ("Embedded"@, "Namespace"@, 0);
        lemma_differ("Embedded"@, "Constructor"@, 0);
        lemma_differ("Embedded"@, "Title"@, 0);
        lemma_differ("Embedded"@, "Strong"@, 0);
        lemma_differ("Embedded"@, "Emphasis"@, 2);
        lemma_differ("Embedded"@, "Link"@, 0);
        lemma_differ("Embedded"@, "Literal"@, 0);
        lemma_differ("Embedded"@, "Strikethrough"@, 0);
        lemma_differ("Embedded"@, "DiffAdd"@, 0);
        lemma_differ("Embedded"@, "DiffDelete"@, 0);
        assert(slot_class(slot) == TokenClass::Embedded);
    }
    if slot == "Error"@ {
        lemma_differ("Error"@, "Keyword"@, 0);
        lemma_differ("Error"@, "Function"@, 0);
        lemma_differ("Error"@, "String"@, 0);
        lemma_differ("Error"@, "Comment"@, 0);
        lemma_differ("Error"@, "Type"@, 0);
        lemma_differ("Error"@, "Variable"@, 0);
        lemma_differ("Error"@, "Constant"@, 0);
        lemma_differ("Error"@, "Number"@, 0);
        lemma_differ("Error"@, "Operator"@, 0);
        lemma_differ("Error"@, "Punctuation"@, 0);
        lemma_differ("Error"@, "Property"@, 0);
        lemma_differ("Error"@, "Attribute"@, 0);
        lemma_differ("Error"@, "Tag"@, 0);
        lemma_differ("Error"@, "Macro"@, 0);
        lemma_differ("Error"@, "Label"@, 0);
        lemma_differ("Error"@, "Namespace"@, 0);
        lemma_differ("Error"@, "Constructor"@, 0);
        lemma_differ("Error"@, "Title"@, 0);
        lemma_differ("Error"@, "Strong"@, 0);
        lemma_differ("Error"@, "Emphasis"@, 0);
        lemma_differ("Error"@, "Link"@, 0);
        lemma_differ("Error"@, "Literal"@, 0);
        lemma_differ("Error"@, "Strikethrough"@, 0);
        lemma_differ("Error"@, "DiffAdd"@, 0);
        lemma_differ("Error"@, "DiffDelete"@, 0);
        lemma_differ("Error"@, "Embedded"@, 0);
        assert(slot_class(slot) == TokenClass::Error);
    }
}

/// Where a run begins, in bytes.
pub open spec fn begin_of(t: Seq<TokenView>, i: int) -> int {
    encode_utf8(joined_text(t.take(i))).len() as int
}

/// Every byte of a run has the run's class.
pub open spec fn runs_fit(t: Seq<TokenView>, classes: Seq<TokenClass>) -> bool {
    forall|i: int, b: int|
        #![trigger t[i], classes[b]]
        0 <= i < t.len() && begin_of(t, i) <= b < begin_of(t, i + 1) ==> classes[b] == t[i].kind
}

/// The bytes of the last run are of one class.
proof fn lemma_run_is_of_one_class(classes: Seq<TokenClass>, n: int, b: int)
    requires
        0 < n,
        run_start(classes, n) <= b < n,
    ensures
        classes[b] == classes[run_start(classes, n)],
        0 <= run_start(classes, n),
    decreases n,
{
    if n > 1 && classes[n - 1] == classes[n - 2] {
        lemma_class_changes(classes, n - 1);
        if b < n - 1 {
            lemma_run_is_of_one_class(classes, n - 1, b);
        } else {
            lemma_run_is_of_one_class(classes, n - 1, n - 2);
        }
    }
}

#[verifier::spinoff_prover]
#[verifier::rlimit(40)]
proof fn lemma_runs_fit(bytes: Seq<u8>, classes: Seq<TokenClass>, n: int)
    requires
        0 <= n <= bytes.len(),
    ensures
        runs_to(bytes, classes, n) matches Some(t) ==> runs_fit(t, classes) && begin_of(
            t,
            t.len() as int,
        ) == n,
    decreases n,
{
    lemma_runs_to(bytes, classes, n);
    if n == 0 {
        let none = Seq::<TokenView>::empty();
        assert(none.take(0) =~= none);
    } else {
        lemma_class_changes(classes, n);
        let a = run_start(classes, n);
        lemma_runs_fit(bytes, classes, a);
        match (runs_to(bytes, classes, a), runs_to(bytes, classes, n)) {
            (Some(t), Some(after)) => {
                let p = piece(bytes, a, n);
                let kind = classes[a];
                decode_utf8_encode_utf8(bytes.subrange(a, n));
                if p.len() == 0 {
                    assert(encode_utf8(p) =~= seq![]);
                }
                assert(after == with_run(t, p, kind));
                assert(after.take(after.len() as int) =~= after);
                assert(t.take(t.len() as int) =~= t);
                let joins = t.len() > 0 && t.last().kind == kind;
                let last = if joins {
                    t.len() - 1
                } else {
                    t.len() as int
                };
                assert forall|i: int| 0 <= i <= last implies #[trigger] after.take(i) == t.take(
                    i,
                ) by {
                    assert(after.take(i) =~= t.take(i));
                }
                assert forall|i: int, b: int|
                    #![trigger after[i], classes[b]]
                    0 <= i < after.len() && begin_of(after, i) <= b < begin_of(
                        after,
                        i + 1,
                    ) implies classes[b] == after[i].kind by {
                    assert(after.take(i) == t.take(i));
                    if i < last {
                        assert(after.take(i + 1) == t.take(i + 1));
                        assert(after[i] == t[i]);
                        assert(classes[b] == t[i].kind);
                    } else if b >= a {
                        lemma_run_is_of_one_class(classes, n, b);
                    } else {
                        assert(joins);
                        assert(begin_of(t, i) <= b < begin_of(t, i + 1));
                        assert(classes[b] == t[i].kind);
                    }
                }
            },
            _ => {},
        }
    }
}

/// The law of classes: every byte of the text stands in a run of the class that the spans give it.
pub proof fn runs_have_the_class_of_their_bytes(
    text: Seq<char>,
    spans: Seq<SpanView>,
    i: int,
    b: int,
)
    requires
        tokens_with(text, spans) is Some,
        0 <= i < tokens_with(text, spans)->0.len(),
        begin_of(tokens_with(text, spans)->0, i) <= b < begin_of(
            tokens_with(text, spans)->0,
            i + 1,
        ),
        0 <= b < encode_utf8(text).len(),
    ensures
        tokens_with(text, spans)->0[i].kind == class_at(spans, b),
{
    let bytes = encode_utf8(text);
    let classes = byte_classes(spans, bytes.len());
    lemma_runs_fit(bytes, classes, bytes.len() as int);
    let t = tokens_with(text, spans)->0;
    assert(t[i].kind == classes[b]);
}

} // verus!
