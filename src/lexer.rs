use vstd::prelude::*;

verus! {

/// Whether the character has the Unicode `Alphabetic` property.
pub uninterp spec fn alphabetic(c: char) -> bool;

/// Whether the character is in one of the Unicode numeric categories.
pub uninterp spec fn numeric(c: char) -> bool;

pub open spec fn ascii_letter(c: char) -> bool {
    ('a' <= c && c <= 'z') || ('A' <= c && c <= 'Z')
}

pub open spec fn ascii_digit(c: char) -> bool {
    '0' <= c && c <= '9'
}

/// Relies on `char::is_alphabetic`: the Unicode `Alphabetic` property, which
/// within ASCII holds of the letters alone.
#[verifier::external_body]
fn is_alphabetic(c: char) -> (r: bool)
    ensures
        r == alphabetic(c),
        c <= '\x7f' ==> (r == ascii_letter(c)),
{
    c.is_alphabetic()
}

/// Relies on `char::is_numeric`: the Unicode numeric categories, which within
/// ASCII hold of the decimal digits alone.
#[verifier::external_body]
fn is_numeric(c: char) -> (r: bool)
    ensures
        r == numeric(c),
        c <= '\x7f' ==> (r == ascii_digit(c)),
{
    c.is_numeric()
}

/// The category of a character, as the tokenizer sees it. A token ends where
/// the category changes.
#[derive(PartialEq, Eq, Structural, Clone, Copy, Debug)]
pub enum CharType {
    Invalid,
    Alpha,
    Num,
    Quote,
    ParenOpen,
    ParenClose,
    CurlyOpen,
    CurlyClose,
    BracketOpen,
    BracketClose,
    Symbol,
    Format,
}

/// A letter: within ASCII, `a` to `z` and `A` to `Z`.
pub open spec fn is_letter(c: char) -> bool {
    if c <= '\x7f' {
        ascii_letter(c)
    } else {
        alphabetic(c)
    }
}

/// A numeric character: within ASCII, `0` to `9`.
pub open spec fn is_number(c: char) -> bool {
    if c <= '\x7f' {
        ascii_digit(c)
    } else {
        numeric(c)
    }
}

pub open spec fn char_type(c: char) -> CharType {
    if is_letter(c) {
        CharType::Alpha
    } else if is_number(c) || c == '.' {
        CharType::Num
    } else if c == '"' {
        CharType::Quote
    } else if c == '(' {
        CharType::ParenOpen
    } else if c == ')' {
        CharType::ParenClose
    } else if c == '{' {
        CharType::CurlyOpen
    } else if c == '}' {
        CharType::CurlyClose
    } else if c == '[' {
        CharType::BracketOpen
    } else if c == ']' {
        CharType::BracketClose
    } else if c == ' ' || c == '\n' || c == '\t' {
        CharType::Format
    } else {
        CharType::Symbol
    }
}

pub fn get_char_state(c: char) -> (r: CharType)
    ensures
        r == char_type(c),
{
    if is_alphabetic(c) {
        CharType::Alpha
    } else if is_numeric(c) || c == '.' {
        CharType::Num
    } else if c == '"' {
        CharType::Quote
    } else if c == '(' {
        CharType::ParenOpen
    } else if c == ')' {
        CharType::ParenClose
    } else if c == '{' {
        CharType::CurlyOpen
    } else if c == '}' {
        CharType::CurlyClose
    } else if c == '[' {
        CharType::BracketOpen
    } else if c == ']' {
        CharType::BracketClose
    } else if c == ' ' || c == '\n' || c == '\t' {
        CharType::Format
    } else {
        CharType::Symbol
    }
}

/// Brackets, braces and parentheses: each one is a token of its own.
pub open spec fn always_transition(t: CharType) -> bool {
    match t {
        CharType::ParenOpen | CharType::ParenClose | CharType::CurlyOpen | CharType::CurlyClose
        | CharType::BracketOpen | CharType::BracketClose => true,
        _ => false,
    }
}

pub fn should_always_transition(t: &CharType) -> (r: bool)
    ensures
        r == always_transition(*t),
{
    match t {
        CharType::ParenOpen | CharType::ParenClose | CharType::CurlyOpen | CharType::CurlyClose
        | CharType::BracketOpen | CharType::BracketClose => true,
        _ => false,
    }
}


pub open spec fn is_keyword(s: Seq<char>) -> bool {
    s == "fun"@ || s == "while"@ || s == "if"@ || s == "elif"@ || s == "else"@ || s == "import"@
        || s == "for"@ || s == "return"@
}

pub open spec fn is_operator(s: Seq<char>) -> bool {
    s == "+"@ || s == "-"@ || s == "*"@ || s == "/"@ || s == "%"@ || s == "^"@ || s == "!"@
        || s == ">"@ || s == "<"@ || s == ">="@ || s == "<="@ || s == "&&"@ || s == "||"@
        || s == "=="@
}

/// Replaces, from left to right, each `\` followed by `e` with `r`.
pub open spec fn replace_escape(s: Seq<char>, e: char, r: char) -> Seq<char>
    decreases s.len(),
{
    if s.len() == 0 {
        s
    } else if s.len() >= 2 && s[0] == '\\' && s[1] == e {
        seq![r] + replace_escape(s.subrange(2, s.len() as int), e, r)
    } else {
        seq![s[0]] + replace_escape(s.subrange(1, s.len() as int), e, r)
    }
}

/// The escape sequences `\n`, `\e`, `\t` and `\"`, substituted in that order.
pub open spec fn unescape(s: Seq<char>) -> Seq<char> {
    replace_escape(
        replace_escape(replace_escape(replace_escape(s, 'n', '\n'), 'e', '\x1b'), 't', '\t'),
        '"',
        '"',
    )
}

/// The text with every leading and trailing `"` removed.
pub open spec fn trim_quotes(s: Seq<char>) -> Seq<char> {
    trim_end_quotes(trim_start_quotes(s))
}

pub open spec fn trim_start_quotes(s: Seq<char>) -> Seq<char>
    decreases s.len(),
{
    if s.len() > 0 && s[0] == '"' {
        trim_start_quotes(s.subrange(1, s.len() as int))
    } else {
        s
    }
}

pub open spec fn trim_end_quotes(s: Seq<char>) -> Seq<char>
    decreases s.len(),
{
    if s.len() > 0 && s.last() == '"' {
        trim_end_quotes(s.drop_last())
    } else {
        s
    }
}

pub open spec fn all_digits(s: Seq<char>) -> bool {
    forall|i: int| 0 <= i < s.len() ==> ascii_digit(#[trigger] s[i])
}

/// The number that a string of decimal digits denotes.
pub open spec fn digits_value(s: Seq<char>) -> nat
    decreases s.len(),
{
    if s.len() == 0 {
        0
    } else {
        digits_value(s.drop_last()) * 10 + (s.last() as nat - '0' as nat) as nat
    }
}

pub open spec fn dot_count(s: Seq<char>) -> nat
    decreases s.len(),
{
    if s.len() == 0 {
        0
    } else {
        dot_count(s.drop_last()) + if s.last() == '.' { 1nat } else { 0nat }
    }
}

/// The text is an unsigned 64-bit integer in decimal.
pub open spec fn is_integer_text(s: Seq<char>) -> bool {
    s.len() > 0 && all_digits(s) && digits_value(s) <= u64::MAX
}

/// The text is a decimal number with at most one point and at least one
/// digit, as a 64-bit float is read from it.
pub open spec fn is_float_text(s: Seq<char>) -> bool {
    &&& forall|i: int| 0 <= i < s.len() ==> ascii_digit(#[trigger] s[i]) || s[i] == '.'
    &&& dot_count(s) <= 1
    &&& s.len() > dot_count(s)
}


/// The class of a token, with the text or number it carries. A float literal
/// keeps its decimal text: the library does no floating-point arithmetic of
/// its own.
#[derive(Clone, Debug)]
pub enum TokenClass {
    Operator(String),
    String(String),
    Integer(u64),
    Float(String),
    Identifier(String),
    Keyword(String),
    EndOfStatement,
    Comma,
    Define,
    Assign,
    AssignOp(String),
    ParenOpen,
    ParenClose,
    CurlyOpen,
    CurlyClose,
    BracketOpen,
    BracketClose,
    Namespace,
}

/// A token class with its text as a sequence of characters.
pub enum ClassView {
    Operator(Seq<char>),
    Str(Seq<char>),
    Integer(u64),
    Float(Seq<char>),
    Identifier(Seq<char>),
    Keyword(Seq<char>),
    EndOfStatement,
    Comma,
    Define,
    Assign,
    AssignOp(Seq<char>),
    ParenOpen,
    ParenClose,
    CurlyOpen,
    CurlyClose,
    BracketOpen,
    BracketClose,
    Namespace,
}

impl View for TokenClass {
    type V = ClassView;

    open spec fn view(&self) -> ClassView {
        match self {
            TokenClass::Operator(s) => ClassView::Operator(s@),
            TokenClass::String(s) => ClassView::Str(s@),
            TokenClass::Integer(n) => ClassView::Integer(*n),
            TokenClass::Float(s) => ClassView::Float(s@),
            TokenClass::Identifier(s) => ClassView::Identifier(s@),
            TokenClass::Keyword(s) => ClassView::Keyword(s@),
            TokenClass::EndOfStatement => ClassView::EndOfStatement,
            TokenClass::Comma => ClassView::Comma,
            TokenClass::Define => ClassView::Define,
            TokenClass::Assign => ClassView::Assign,
            TokenClass::AssignOp(s) => ClassView::AssignOp(s@),
            TokenClass::ParenOpen => ClassView::ParenOpen,
            TokenClass::ParenClose => ClassView::ParenClose,
            TokenClass::CurlyOpen => ClassView::CurlyOpen,
            TokenClass::CurlyClose => ClassView::CurlyClose,
            TokenClass::BracketOpen => ClassView::BracketOpen,
            TokenClass::BracketClose => ClassView::BracketClose,
            TokenClass::Namespace => ClassView::Namespace,
        }
    }
}

fn same_text(a: &String, b: &String) -> (r: bool)
    ensures
        r == (a@ == b@),
{
    a.eq(b)
}

impl TokenClass {
    /// Structural comparison: the same class carrying the same text or number.
    pub fn same(&self, other: &TokenClass) -> (r: bool)
        ensures
            r == (self@ == other@),
    {
        match (self, other) {
            (TokenClass::Operator(a), TokenClass::Operator(b)) => same_text(a, b),
            (TokenClass::String(a), TokenClass::String(b)) => same_text(a, b),
            (TokenClass::Integer(a), TokenClass::Integer(b)) => *a == *b,
            (TokenClass::Float(a), TokenClass::Float(b)) => same_text(a, b),
            (TokenClass::Identifier(a), TokenClass::Identifier(b)) => same_text(a, b),
            (TokenClass::Keyword(a), TokenClass::Keyword(b)) => same_text(a, b),
            (TokenClass::EndOfStatement, TokenClass::EndOfStatement) => true,
            (TokenClass::Comma, TokenClass::Comma) => true,
            (TokenClass::Define, TokenClass::Define) => true,
            (TokenClass::Assign, TokenClass::Assign) => true,
            (TokenClass::AssignOp(a), TokenClass::AssignOp(b)) => same_text(a, b),
            (TokenClass::ParenOpen, TokenClass::ParenOpen) => true,
            (TokenClass::ParenClose, TokenClass::ParenClose) => true,
            (TokenClass::CurlyOpen, TokenClass::CurlyOpen) => true,
            (TokenClass::CurlyClose, TokenClass::CurlyClose) => true,
            (TokenClass::BracketOpen, TokenClass::BracketOpen) => true,
            (TokenClass::BracketClose, TokenClass::BracketClose) => true,
            (TokenClass::Namespace, TokenClass::Namespace) => true,
            _ => false,
        }
    }
}

impl PartialEq for TokenClass {
    fn eq(&self, other: &TokenClass) -> (r: bool) {
        self.same(other)
    }
}

impl vstd::std_specs::cmp::PartialEqSpecImpl for TokenClass {
    open spec fn obeys_eq_spec() -> bool {
        true
    }

    open spec fn eq_spec(&self, other: &TokenClass) -> bool {
        self@ == other@
    }
}

/// A classified token and the 1-based line it was read on.
#[derive(Clone, Debug)]
pub struct Token {
    pub data: TokenClass,
    pub line_index: u32,
}

pub struct TokenView {
    pub class: ClassView,
    pub line: nat,
}

impl View for Token {
    type V = TokenView;

    open spec fn view(&self) -> TokenView {
        TokenView { class: self.data@, line: self.line_index as nat }
    }
}

/// A lexical error: the text of the offending token and its line.
#[derive(Clone, Debug)]
pub enum LexError {
    /// Digits and points that read neither as an integer nor as a float.
    BadNumber { text: String, line: u32 },
    /// A run of symbol characters that is no operator or punctuation.
    BadSymbol { text: String, line: u32 },
}

pub enum LexErrorView {
    BadNumber(Seq<char>, nat),
    BadSymbol(Seq<char>, nat),
}

impl View for LexError {
    type V = LexErrorView;

    open spec fn view(&self) -> LexErrorView {
        match self {
            LexError::BadNumber { text, line } => LexErrorView::BadNumber(text@, *line as nat),
            LexError::BadSymbol { text, line } => LexErrorView::BadSymbol(text@, *line as nat),
        }
    }
}


/// Relies on `String::push`: the character is appended at the end.
#[verifier::external_body]
fn push_char(s: &mut String, c: char)
    ensures
        final(s)@ == old(s)@.push(c),
{
    s.push(c)
}

pub fn string_of(chars: &Vec<char>) -> (r: String)
    ensures
        r@ == chars@,
{
    let mut r = String::new();
    let mut i: usize = 0;
    while i < chars.len()
        invariant
            i <= chars.len(),
            r@ == chars@.take(i as int),
        decreases chars.len() - i,
    {
        push_char(&mut r, chars[i]);
        i = i + 1;
        assert(r@ =~= chars@.take(i as int));
    }
    assert(r@ =~= chars@);
    r
}

/// Whether the text spells out the given word.
pub fn text_is(s: &str, w: &str) -> (r: bool)
    ensures
        r == (s@ == w@),
{
    let n = w.unicode_len();
    if s.unicode_len() != n {
        return false;
    }
    let mut i: usize = 0;
    while i < n
        invariant
            i <= n,
            n == w@.len(),
            s@.len() == n,
            forall|k: int| 0 <= k < i ==> s@[k] == w@[k],
        decreases n - i,
    {
        if s.get_char(i) != w.get_char(i) {
            return false;
        }
        i = i + 1;
    }
    assert(s@ =~= w@);
    true
}

/// Whether the characters spell out the given word.
fn is_word(b: &Vec<char>, w: &str) -> (r: bool)
    ensures
        r == (b@ == w@),
{
    let n = w.unicode_len();
    if b.len() != n {
        return false;
    }
    let mut i: usize = 0;
    while i < n
        invariant
            i <= n,
            n == w@.len(),
            b@.len() == n,
            forall|k: int| 0 <= k < i ==> b@[k] == w@[k],
        decreases n - i,
    {
        if b[i] != w.get_char(i) {
            return false;
        }
        i = i + 1;
    }
    assert(b@ =~= w@);
    true
}

fn is_keyword_text(b: &Vec<char>) -> (r: bool)
    ensures
        r == is_keyword(b@),
{
    is_word(b, "fun") || is_word(b, "while") || is_word(b, "if") || is_word(b, "elif")
        || is_word(b, "else") || is_word(b, "import") || is_word(b, "for") || is_word(b, "return")
}

fn is_operator_text(b: &Vec<char>) -> (r: bool)
    ensures
        r == is_operator(b@),
{
    is_word(b, "+") || is_word(b, "-") || is_word(b, "*") || is_word(b, "/") || is_word(b, "%")
        || is_word(b, "^") || is_word(b, "!") || is_word(b, ">") || is_word(b, "<") || is_word(
        b,
        ">=",
    ) || is_word(b, "<=") || is_word(b, "&&") || is_word(b, "||") || is_word(b, "==")
}

fn replace_escape_in(s: &Vec<char>, e: char, r: char) -> (out: Vec<char>)
    ensures
        out@ == replace_escape(s@, e, r),
{
    let n = s.len();
    let mut out: Vec<char> = Vec::new();
    let mut i: usize = 0;
    assert(s@.subrange(0, n as int) =~= s@);
    assert(out@ + replace_escape(s@, e, r) =~= replace_escape(s@, e, r));
    while i < n
        invariant
            i <= n,
            n == s@.len(),
            out@ + replace_escape(s@.subrange(i as int, n as int), e, r) == replace_escape(s@, e, r),
        decreases n - i,
    {
        let ghost rest = s@.subrange(i as int, n as int);
        if i + 1 < n && s[i] == '\\' && s[i + 1] == e {
            assert(rest.subrange(2, rest.len() as int) =~= s@.subrange(i + 2, n as int));
            out.push(r);
            i = i + 2;
        } else {
            assert(rest.subrange(1, rest.len() as int) =~= s@.subrange(i + 1, n as int));
            out.push(s[i]);
            i = i + 1;
        }
        assert(out@ + replace_escape(s@.subrange(i as int, n as int), e, r) =~= replace_escape(
            s@,
            e,
            r,
        ));
    }
    assert(s@.subrange(n as int, n as int) =~= Seq::<char>::empty());
    assert(out@ =~= replace_escape(s@, e, r));
    out
}

pub fn do_escape_sequences(seq: &Vec<char>) -> (r: Vec<char>)
    ensures
        r@ == unescape(seq@),
{
    let a = replace_escape_in(seq, 'n', '\n');
    let b = replace_escape_in(&a, 'e', '\x1b');
    let c = replace_escape_in(&b, 't', '\t');
    replace_escape_in(&c, '"', '"')
}

proof fn lemma_trim_start(s: Seq<char>, i: int)
    requires
        0 <= i <= s.len(),
        forall|k: int| 0 <= k < i ==> s[k] == '"',
    ensures
        trim_start_quotes(s) == trim_start_quotes(s.subrange(i, s.len() as int)),
    decreases i,
{
    if i > 0 {
        assert(s.subrange(1, s.len() as int).subrange(i - 1, s.len() - 1) =~= s.subrange(
            i,
            s.len() as int,
        ));
        lemma_trim_start(s.subrange(1, s.len() as int), i - 1);
    } else {
        assert(s.subrange(0, s.len() as int) =~= s);
    }
}

proof fn lemma_trim_end(s: Seq<char>, j: int)
    requires
        0 <= j <= s.len(),
        forall|k: int| j <= k < s.len() ==> s[k] == '"',
    ensures
        trim_end_quotes(s) == trim_end_quotes(s.take(j)),
    decreases s.len() - j,
{
    if j < s.len() {
        assert(s.drop_last().take(j) =~= s.take(j));
        lemma_trim_end(s.drop_last(), j);
    } else {
        assert(s.take(j) =~= s);
    }
}

fn trim_quotes_in(s: &Vec<char>) -> (r: Vec<char>)
    ensures
        r@ == trim_quotes(s@),
{
    let n = s.len();
    let mut i: usize = 0;
    while i < n && s[i] == '"'
        invariant
            i <= n,
            n == s@.len(),
            forall|k: int| 0 <= k < i ==> s@[k] == '"',
        decreases n - i,
    {
        i = i + 1;
    }
    proof {
        lemma_trim_start(s@, i as int);
    }
    let ghost t = s@.subrange(i as int, n as int);
    assert(i == n || t[0] != '"');
    let mut j: usize = n;
    while j > i && s[j - 1] == '"'
        invariant
            i <= j <= n,
            n == s@.len(),
            forall|k: int| j <= k < n ==> s@[k] == '"',
        decreases j,
    {
        j = j - 1;
    }
    proof {
        lemma_trim_end(t, j - i);
        assert(t.take(j - i) =~= s@.subrange(i as int, j as int));
        if j > i {
            assert(s@.subrange(i as int, j as int).last() == s@[j - 1]);
        }
    }
    let mut r: Vec<char> = Vec::new();
    let mut k: usize = i;
    while k < j
        invariant
            i <= k <= j,
            j <= n,
            n == s@.len(),
            r@ == s@.subrange(i as int, k as int),
        decreases j - k,
    {
        r.push(s[k]);
        k = k + 1;
        assert(r@ =~= s@.subrange(i as int, k as int));
    }
    r
}


proof fn lemma_digits_value_grows(s: Seq<char>, i: int)
    requires
        0 <= i <= s.len(),
    ensures
        digits_value(s.take(i)) <= digits_value(s),
    decreases s.len() - i,
{
    if i < s.len() {
        assert(s.drop_last().take(i) =~= s.take(i));
        lemma_digits_value_grows(s.drop_last(), i);
    } else {
        assert(s.take(i) =~= s);
    }
}

/// The integer that the text denotes, where it is an unsigned 64-bit integer.
fn integer_of(s: &Vec<char>) -> (r: Option<u64>)
    ensures
        r is Some <==> is_integer_text(s@),
        r matches Some(v) ==> v == digits_value(s@),
{
    let n = s.len();
    if n == 0 {
        return None;
    }
    let mut acc: u64 = 0;
    let mut i: usize = 0;
    while i < n
        invariant
            i <= n,
            n == s@.len(),
            forall|k: int| 0 <= k < i ==> ascii_digit(#[trigger] s@[k]),
            acc == digits_value(s@.take(i as int)),
        decreases n - i,
    {
        let c = s[i];
        if !('0' <= c && c <= '9') {
            return None;
        }
        let d = (c as u32 - '0' as u32) as u64;
        assert(s@.take(i + 1).drop_last() =~= s@.take(i as int));
        if acc > (u64::MAX - d) / 10 {
            proof {
                lemma_digits_value_grows(s@, i + 1);
            }
            return None;
        }
        acc = acc * 10 + d;
        i = i + 1;
    }
    assert(s@.take(n as int) =~= s@);
    Some(acc)
}

proof fn lemma_dot_count_step(s: Seq<char>, i: int)
    requires
        0 <= i < s.len(),
    ensures
        dot_count(s.take(i + 1)) == dot_count(s.take(i)) + if s[i] == '.' { 1nat } else { 0nat },
{
    assert(s.take(i + 1).drop_last() =~= s.take(i));
}

fn is_float_literal(s: &Vec<char>) -> (r: bool)
    ensures
        r == is_float_text(s@),
{
    let n = s.len();
    let mut dots: usize = 0;
    let mut i: usize = 0;
    while i < n
        invariant
            i <= n,
            n == s@.len(),
            forall|k: int| 0 <= k < i ==> ascii_digit(#[trigger] s@[k]) || s@[k] == '.',
            dots == dot_count(s@.take(i as int)),
            dots <= i,
        decreases n - i,
    {
        let c = s[i];
        proof {
            lemma_dot_count_step(s@, i as int);
        }
        if c == '.' {
            dots = dots + 1;
        } else if !('0' <= c && c <= '9') {
            return false;
        }
        i = i + 1;
    }
    assert(s@.take(n as int) =~= s@);
    dots <= 1 && n > dots
}

/// The class of a numeric token: an integer where the text reads as one,
/// else a float.
pub open spec fn number_class(s: Seq<char>) -> Option<ClassView> {
    if is_integer_text(s) {
        Some(ClassView::Integer(digits_value(s) as u64))
    } else if is_float_text(s) {
        Some(ClassView::Float(s))
    } else {
        None
    }
}

/// The class of a run of symbol characters.
pub open spec fn symbol_class(s: Seq<char>) -> Option<ClassView> {
    if s == "="@ {
        Some(ClassView::Assign)
    } else if s == ":="@ {
        Some(ClassView::Define)
    } else if s == "+="@ || s == "-="@ || s == "*="@ || s == "/="@ {
        Some(ClassView::AssignOp(s))
    } else if s == ","@ {
        Some(ClassView::Comma)
    } else if s == ";"@ {
        Some(ClassView::EndOfStatement)
    } else if s == "::"@ {
        Some(ClassView::Namespace)
    } else if is_operator(s) {
        Some(ClassView::Operator(s))
    } else {
        None
    }
}

/// What a buffer of the given category becomes when the token ends: nothing
/// for whitespace, a token, or an error.
pub open spec fn flush(last: CharType, buf: Seq<char>, line: nat) -> Option<
    Result<TokenView, LexErrorView>,
> {
    let tok = |c: ClassView| Some(Ok(TokenView { class: c, line }));
    match last {
        CharType::Invalid | CharType::Format => None,
        CharType::Alpha => if is_keyword(buf) {
            tok(ClassView::Keyword(unescape(buf)))
        } else {
            tok(ClassView::Identifier(unescape(buf)))
        },
        CharType::Num => match number_class(buf) {
            Some(c) => tok(c),
            None => Some(Err(LexErrorView::BadNumber(buf, line))),
        },
        CharType::Quote => tok(ClassView::Str(unescape(trim_quotes(buf)))),
        CharType::ParenOpen => tok(ClassView::ParenOpen),
        CharType::ParenClose => tok(ClassView::ParenClose),
        CharType::CurlyOpen => tok(ClassView::CurlyOpen),
        CharType::CurlyClose => tok(ClassView::CurlyClose),
        CharType::BracketOpen => tok(ClassView::BracketOpen),
        CharType::BracketClose => tok(ClassView::BracketClose),
        CharType::Symbol => match symbol_class(buf) {
            Some(c) => tok(c),
            None => Some(Err(LexErrorView::BadSymbol(buf, line))),
        },
    }
}

fn push_token(out: &mut Vec<Token>, state: CharType, buffer: &Vec<char>, line_index: u32) -> (r:
    Result<(), LexError>)
    ensures
        match flush(state, buffer@, line_index as nat) {
            None => r is Ok && final(out)@ == old(out)@,
            Some(Ok(t)) => r is Ok && final(out)@ == old(out)@.push(final(out)@.last())
                && final(out)@.last()@ == t,
            Some(Err(e)) => r matches Err(x) && x@ == e && final(out)@ == old(out)@,
        },
{
    let data = match state {
        CharType::Invalid | CharType::Format => {
            return Ok(());
        },
        CharType::Alpha => {
            let content = string_of(&do_escape_sequences(buffer));
            if is_keyword_text(buffer) {
                TokenClass::Keyword(content)
            } else {
                TokenClass::Identifier(content)
            }
        },
        CharType::Num => {
            if let Some(v) = integer_of(buffer) {
                TokenClass::Integer(v)
            } else if is_float_literal(buffer) {
                TokenClass::Float(string_of(buffer))
            } else {
                return Err(LexError::BadNumber { text: string_of(buffer), line: line_index });
            }
        },
        CharType::Quote => TokenClass::String(
            string_of(&do_escape_sequences(&trim_quotes_in(buffer))),
        ),
        CharType::ParenOpen => TokenClass::ParenOpen,
        CharType::ParenClose => TokenClass::ParenClose,
        CharType::CurlyOpen => TokenClass::CurlyOpen,
        CharType::CurlyClose => TokenClass::CurlyClose,
        CharType::BracketOpen => TokenClass::BracketOpen,
        CharType::BracketClose => TokenClass::BracketClose,
        CharType::Symbol => {
            if is_word(buffer, "=") {
                TokenClass::Assign
            } else if is_word(buffer, ":=") {
                TokenClass::Define
            } else if is_word(buffer, "+=") || is_word(buffer, "-=") || is_word(buffer, "*=")
                || is_word(buffer, "/=") {
                TokenClass::AssignOp(string_of(buffer))
            } else if is_word(buffer, ",") {
                TokenClass::Comma
            } else if is_word(buffer, ";") {
                TokenClass::EndOfStatement
            } else if is_word(buffer, "::") {
                TokenClass::Namespace
            } else if is_operator_text(buffer) {
                TokenClass::Operator(string_of(buffer))
            } else {
                return Err(LexError::BadSymbol { text: string_of(buffer), line: line_index });
            }
        },
    };
    out.push(Token { data, line_index });
    Ok(())
}


/// The tokenizer's state after some prefix of the source.
pub struct LexState {
    pub tokens: Seq<TokenView>,
    pub buffer: Seq<char>,
    pub last: CharType,
    pub line: nat,
    pub in_comment: bool,
    pub in_string: bool,
    pub failed: Option<LexErrorView>,
}

pub open spec fn lex_start() -> LexState {
    LexState {
        tokens: Seq::empty(),
        buffer: Seq::empty(),
        last: CharType::Invalid,
        line: 1,
        in_comment: false,
        in_string: false,
        failed: None,
    }
}

/// One character through the tokenizer. A token ends where the category
/// changes or the previous character was a bracket, except inside a comment or
/// a string; `//` opens a comment that the next newline closes; a character
/// after a quote toggles string mode. An error stops the tokenizer.
pub open spec fn lex_step(st: LexState, c: char) -> LexState {
    if st.failed is Some {
        st
    } else {
        let state = char_type(c);
        let comment_opens = st.buffer == seq!['/', '/'];
        let in_comment = st.in_comment || comment_opens;
        let buffer = if comment_opens { Seq::empty() } else { st.buffer };
        let in_string = if st.last == CharType::Quote { !st.in_string } else { st.in_string };
        let transite = state != st.last || always_transition(st.last);
        let ends = transite && !in_comment && !in_string;
        let flushed = if ends { flush(st.last, buffer, st.line) } else { None };
        let tokens = match flushed {
            Some(Ok(t)) => st.tokens.push(t),
            _ => st.tokens,
        };
        let failed = match flushed {
            Some(Err(e)) => Some(e),
            _ => None,
        };
        let buffer = if ends { Seq::empty() } else { buffer };
        let in_comment = if c == '\n' { false } else { in_comment };
        let line = if c == '\n' { st.line + 1 } else { st.line };
        let buffer = if !in_comment { buffer.push(c) } else { buffer };
        LexState { tokens, buffer, last: state, line, in_comment, in_string, failed }
    }
}

/// The end of the text ends the last token, as a change of category would:
/// the buffer is flushed unless a comment or an unclosed string holds it.
pub open spec fn lex_finish(st: LexState) -> LexState {
    if st.failed is Some {
        st
    } else {
        let in_comment = st.in_comment || st.buffer == seq!['/', '/'];
        let in_string = if st.last == CharType::Quote { !st.in_string } else { st.in_string };
        let flushed = if !in_comment && !in_string { flush(st.last, st.buffer, st.line) } else { None };
        match flushed {
            Some(Ok(t)) => LexState { tokens: st.tokens.push(t), buffer: Seq::empty(), ..st },
            Some(Err(e)) => LexState { failed: Some(e), ..st },
            None => st,
        }
    }
}

/// The tokens of the whole text, or its first lexical error.
pub open spec fn lex_all(s: Seq<char>) -> LexState {
    lex_finish(lex_run(s))
}

/// The tokenizer's state after each character of the text, before the end
/// of the text ends the last token.
pub open spec fn lex_run(s: Seq<char>) -> LexState
    decreases s.len(),
{
    if s.len() == 0 {
        lex_start()
    } else {
        lex_step(lex_run(s.drop_last()), s.last())
    }
}

proof fn lemma_failed_stays(s: Seq<char>, i: int)
    requires
        0 <= i <= s.len(),
        lex_run(s.take(i)).failed is Some,
    ensures
        lex_run(s).failed == lex_run(s.take(i)).failed,
    decreases s.len() - i,
{
    if i < s.len() {
        assert(s.drop_last().take(i) =~= s.take(i));
        lemma_failed_stays(s.drop_last(), i);
    } else {
        assert(s.take(i) =~= s);
    }
}

proof fn lemma_line_bound(s: Seq<char>)
    ensures
        lex_run(s).line <= s.len() + 1,
    decreases s.len(),
{
    if s.len() > 0 {
        lemma_line_bound(s.drop_last());
    }
}

pub open spec fn token_views(ts: Seq<Token>) -> Seq<TokenView> {
    ts.map_values(|t: Token| t@)
}


/// What a parse error says went wrong.
#[derive(Clone, Debug)]
pub enum SyntaxError {
    /// A particular token was required; `got` is what stood there, if anything.
    Expected { wanted: TokenClass, got: Option<TokenClass> },
    /// The tokens ran out where the named construct needed more.
    EndOfStream,
    /// No expression can begin with the token that stands there.
    InvalidPrimary,
    /// An identifier was required.
    ExpectedIdentifier,
    /// A parameter list holds something that is neither a name nor `)`.
    ExpectedParameter,
    /// A variable name is followed by something other than `:=`, `=` or an
    /// assigning operator.
    ExpectedAssignment,
    /// No statement can begin with the token that stands there.
    InvalidStatement,
}

/// A parse error and the line of the most recently consumed token.
#[derive(Clone, Debug)]
pub struct ParseError {
    pub line: u32,
    pub kind: SyntaxError,
}

/// A cursor over a token sequence.
#[derive(Debug)]
pub struct Stream {
    tokens: Vec<Token>,
    index: usize,
    last_line_index: u32,
}

pub struct StreamView {
    pub tokens: Seq<TokenView>,
    pub index: nat,
    pub last_line: nat,
}

impl View for Stream {
    type V = StreamView;

    closed spec fn view(&self) -> StreamView {
        StreamView {
            tokens: token_views(self.tokens@),
            index: self.index as nat,
            last_line: self.last_line_index as nat,
        }
    }
}

impl StreamView {
    /// The cursor stands within the sequence or just after it.
    pub open spec fn wf(self) -> bool {
        self.index <= self.tokens.len()
    }

    pub open spec fn remaining(self) -> nat {
        (self.tokens.len() - self.index) as nat
    }

    pub open spec fn current(self) -> Option<TokenView> {
        if self.index < self.tokens.len() {
            Some(self.tokens[self.index as int])
        } else {
            None
        }
    }

    pub open spec fn current_is(self, c: ClassView) -> bool {
        self.index < self.tokens.len() && self.tokens[self.index as int].class == c
    }

    pub open spec fn at(self, offset: int) -> Option<ClassView> {
        if self.index + offset < self.tokens.len() {
            Some(self.tokens[self.index + offset].class)
        } else {
            None
        }
    }

    /// The cursor moved forward, or stayed, over the same tokens.
    pub open spec fn reaches(self, next: StreamView) -> bool {
        &&& next.wf()
        &&& next.tokens == self.tokens
        &&& next.index >= self.index
    }

    /// The cursor moved forward over `n` tokens, the last of them becoming the
    /// most recently consumed.
    pub open spec fn advanced(self, next: StreamView, n: nat) -> bool {
        &&& next.tokens == self.tokens
        &&& next.index == self.index + n
        &&& n > 0 ==> next.last_line == self.tokens[next.index - 1].line
        &&& n == 0 ==> next.last_line == self.last_line
    }
}

impl Token {
    /// A copy of the token.
    pub fn copy(&self) -> (r: Token)
        ensures
            r@ == self@,
    {
        let data = match &self.data {
            TokenClass::Operator(s) => TokenClass::Operator(s.clone()),
            TokenClass::String(s) => TokenClass::String(s.clone()),
            TokenClass::Integer(n) => TokenClass::Integer(*n),
            TokenClass::Float(s) => TokenClass::Float(s.clone()),
            TokenClass::Identifier(s) => TokenClass::Identifier(s.clone()),
            TokenClass::Keyword(s) => TokenClass::Keyword(s.clone()),
            TokenClass::EndOfStatement => TokenClass::EndOfStatement,
            TokenClass::Comma => TokenClass::Comma,
            TokenClass::Define => TokenClass::Define,
            TokenClass::Assign => TokenClass::Assign,
            TokenClass::AssignOp(s) => TokenClass::AssignOp(s.clone()),
            TokenClass::ParenOpen => TokenClass::ParenOpen,
            TokenClass::ParenClose => TokenClass::ParenClose,
            TokenClass::CurlyOpen => TokenClass::CurlyOpen,
            TokenClass::CurlyClose => TokenClass::CurlyClose,
            TokenClass::BracketOpen => TokenClass::BracketOpen,
            TokenClass::BracketClose => TokenClass::BracketClose,
            TokenClass::Namespace => TokenClass::Namespace,
        };
        Token { data, line_index: self.line_index }
    }
}

impl Stream {
    /// A cursor at the start of the tokens.
    pub fn new(tokens: Vec<Token>) -> (r: Stream)
        ensures
            r@.tokens == token_views(tokens@),
            r@.index == 0,
            r@.last_line == 0,
    {
        Stream { tokens, index: 0, last_line_index: 0 }
    }

    pub fn len(&self) -> (r: usize)
        ensures
            r == self@.tokens.len(),
    {
        self.tokens.len()
    }

    pub fn has(&self) -> (r: bool)
        ensures
            r == (self@.index < self@.tokens.len()),
    {
        self.index < self.tokens.len()
    }

    /// The current token, not consumed.
    pub fn peek(&self) -> (r: Option<&Token>)
        requires
            self@.wf(),
        ensures
            r is Some <==> self@.current() is Some,
            r matches Some(t) ==> t@ == self@.current()->0,
    {
        if !self.has() {
            return None;
        }
        Some(&self.tokens[self.index])
    }

    /// Consumes the current token, if there is one.
    pub fn next(&mut self)
        requires
            old(self)@.wf(),
        ensures
            final(self)@.wf(),
            old(self)@.current() is Some ==> old(self)@.advanced(final(self)@, 1),
            old(self)@.current() is None ==> final(self)@ == old(self)@,
    {
        if self.index < self.tokens.len() {
            self.last_line_index = self.tokens[self.index].line_index;
            self.index = self.index + 1;
        }
    }

    /// Consumes and returns the current token, if there is one.
    pub fn pop(&mut self) -> (r: Option<Token>)
        requires
            old(self)@.wf(),
        ensures
            final(self)@.wf(),
            r is Some <==> old(self)@.current() is Some,
            r matches Some(t) ==> t@ == old(self)@.current()->0 && old(self)@.advanced(
                final(self)@,
                1,
            ),
            r is None ==> final(self)@ == old(self)@,
    {
        if !self.has() {
            return None;
        }
        let token = self.tokens[self.index].copy();
        self.next();
        Some(token)
    }

    /// A parse error at the line of the most recently consumed token.
    pub fn error(&self, kind: SyntaxError) -> (r: ParseError)
        ensures
            r.line == self@.last_line,
            r.kind == kind,
    {
        ParseError { line: self.last_line_index, kind }
    }

    /// Consumes the current token, which must be of the wanted class.
    pub fn expect(&mut self, should: TokenClass) -> (r: Result<(), ParseError>)
        requires
            old(self)@.wf(),
        ensures
            final(self)@.wf(),
            r is Ok <==> old(self)@.current_is(should@),
            old(self)@.current() is Some ==> old(self)@.advanced(final(self)@, 1),
            old(self)@.current() is None ==> final(self)@ == old(self)@,
            r matches Err(e) ==> e.line == final(self)@.last_line,
    {
        match self.pop() {
            None => Err(self.error(SyntaxError::Expected { wanted: should, got: None })),
            Some(token) => {
                if token.data.same(&should) {
                    Ok(())
                } else {
                    Err(self.error(SyntaxError::Expected { wanted: should, got: Some(token.data) }))
                }
            },
        }
    }

    /// Consumes the current token only where it is of the given class.
    pub fn maybe(&mut self, can: TokenClass)
        requires
            old(self)@.wf(),
        ensures
            final(self)@.wf(),
            old(self)@.current_is(can@) ==> old(self)@.advanced(final(self)@, 1),
            !old(self)@.current_is(can@) ==> final(self)@ == old(self)@,
    {
        let hit = match self.peek() {
            Some(token) => token.data.same(&can),
            None => false,
        };
        if hit {
            self.next();
        }
    }

    /// The class of the token `offset` places after the cursor, not consumed.
    pub fn lookhead(&self, offset: usize) -> (r: Option<&TokenClass>)
        requires
            self@.wf(),
        ensures
            r is Some <==> self@.at(offset as int) is Some,
            r matches Some(c) ==> c@ == self@.at(offset as int)->0,
    {
        if offset >= self.tokens.len() - self.index {
            return None;
        }
        Some(&self.tokens[self.index + offset].data)
    }
}


/// Splits source text into tokens (see `lex_all`).
pub fn lex(source: &String) -> (r: Result<Stream, LexError>)
    requires
        source@.len() < u32::MAX,
    ensures
        match r {
            Ok(s) => {
                &&& lex_all(source@).failed is None
                &&& s@.tokens == lex_all(source@).tokens
                &&& s@.index == 0
                &&& s@.last_line == 0
            },
            Err(e) => lex_all(source@).failed == Some(e@),
        },
{
    let mut out: Vec<Token> = Vec::new();
    let mut buffer: Vec<char> = Vec::new();
    let mut last = CharType::Invalid;
    let mut line_index: u32 = 1;
    let mut in_comment: bool = false;
    let mut in_string: bool = false;
    proof {
        assert(source@.take(0) =~= Seq::<char>::empty());
        assert(token_views(out@) =~= Seq::<TokenView>::empty());
    }
    for c in it: source.chars()
        invariant
            it.seq() == source@,
            source@.len() < u32::MAX,
            lex_run(source@.take(it.index() as int)) == (LexState {
                tokens: token_views(out@),
                buffer: buffer@,
                last,
                line: line_index as nat,
                in_comment,
                in_string,
                failed: None,
            }),
    {
        let ghost i = it.index() as int;
        let ghost pre = source@.take(i + 1);
        proof {
            assert(pre.drop_last() =~= source@.take(i));
            lemma_line_bound(pre);
        }
        let state = get_char_state(c);
        let opens = buffer.len() == 2 && buffer[0] == '/' && buffer[1] == '/';
        proof {
            if opens {
                assert(buffer@ =~= seq!['/', '/']);
            }
        }
        if opens {
            in_comment = true;
            buffer = Vec::new();
        }
        if last == CharType::Quote {
            in_string = !in_string;
        }
        let transite = state != last || should_always_transition(&last);
        if transite && !in_comment && !in_string {
            let ghost before = out@;
            match push_token(&mut out, last, &buffer, line_index) {
                Ok(()) => {},
                Err(e) => {
                    proof {
                        lemma_failed_stays(source@, i + 1);
                        assert(source@.take(source@.len() as int) =~= source@);
                    }
                    return Err(e);
                },
            }
            proof {
                if out@.len() != before.len() {
                    assert(token_views(out@) =~= token_views(before).push(out@.last()@));
                }
            }
            buffer = Vec::new();
        }
        if c == '\n' {
            in_comment = false;
            line_index = line_index + 1;
        }
        if !in_comment {
            buffer.push(c);
        }
        last = state;
    }
    proof {
        assert(source@.take(source@.len() as int) =~= source@);
    }
    let opens = buffer.len() == 2 && buffer[0] == '/' && buffer[1] == '/';
    proof {
        if opens {
            assert(buffer@ =~= seq!['/', '/']);
        }
    }
    let open_string = if last == CharType::Quote {
        !in_string
    } else {
        in_string
    };
    if !in_comment && !opens && !open_string {
        let ghost before = out@;
        push_token(&mut out, last, &buffer, line_index)?;
        proof {
            if out@.len() != before.len() {
                assert(token_views(out@) =~= token_views(before).push(out@.last()@));
            }
        }
    }
    Ok(Stream::new(out))
}

} // verus!
