use vstd::prelude::*;
use vstd::string::StringExecFns;

verus! {

/// Offsets of a region of source text.
#[derive(Clone, Copy, Debug, PartialEq, Eq, Structural)]
pub struct Span {
    pub lo: u32,
    pub hi: u32,
}

/// The errors that the lexer reports: four fixed kinds, and a text.
pub trait KiError: Sized {
    fn empty() -> Self;

    fn uncompleted() -> Self;

    fn path() -> Self;

    fn whitespace() -> Self;

    fn str(s: &'static str) -> Self;

    fn char(c: char) -> Self;

    fn string(s: String) -> Self;
}

/// An error that carries nothing.
#[derive(Clone, Copy, Debug, PartialEq, Eq, Structural)]
pub struct Empty;

impl KiError for Empty {
    fn empty() -> Self {
        Empty
    }

    fn uncompleted() -> Self {
        Empty
    }

    fn path() -> Self {
        Empty
    }

    fn whitespace() -> Self {
        Empty
    }

    fn str(_s: &'static str) -> Self {
        Empty
    }

    fn char(_c: char) -> Self {
        Empty
    }

    fn string(_s: String) -> Self {
        Empty
    }
}

impl Empty {
    /// The text of the error.
    pub fn to_string(&self) -> (r: String)
        ensures
            r@ == empty_text(),
    {
        proof {
            reveal_strlit("Empty");
        }
        String::from_str("Empty")
    }
}

pub open spec fn empty_text() -> Seq<char> {
    seq!['E', 'm', 'p', 't', 'y']
}

/// An error that says what went wrong.
#[derive(Clone, Debug)]
pub enum Detail {
    Empty,
    Uncompleted,
    Path,
    Whitespace,
    Str(&'static str),
    Char(char),
    String(String),
}

impl KiError for Detail {
    fn empty() -> (r: Self)
        ensures
            r == Detail::Empty,
    {
        Detail::Empty
    }

    fn uncompleted() -> (r: Self)
        ensures
            r == Detail::Uncompleted,
    {
        Detail::Uncompleted
    }

    fn path() -> (r: Self)
        ensures
            r == Detail::Path,
    {
        Detail::Path
    }

    fn whitespace() -> (r: Self)
        ensures
            r == Detail::Whitespace,
    {
        Detail::Whitespace
    }

    fn str(s: &'static str) -> (r: Self)
        ensures
            r == Detail::Str(s),
    {
        Detail::Str(s)
    }

    fn char(c: char) -> (r: Self)
        ensures
            r == Detail::Char(c),
    {
        Detail::Char(c)
    }

    fn string(s: String) -> (r: Self)
        ensures
            r == Detail::String(s),
    {
        Detail::String(s)
    }
}

/// The text of an error: the kind's name, or the text it carries.
pub open spec fn detail_text(d: Detail) -> Seq<char> {
    match d {
        Detail::Empty => empty_text(),
        Detail::Uncompleted => seq!['U', 'n', 'c', 'o', 'm', 'p', 'l', 'e', 't', 'e', 'd'],
        Detail::Path => seq!['P', 'a', 't', 'h'],
        Detail::Whitespace => seq!['W', 'h', 'i', 't', 'e', 's', 'p', 'a', 'c', 'e'],
        Detail::Str(s) => s@,
        Detail::Char(c) => seq![c],
        Detail::String(s) => s@,
    }
}

/// Relies on `char`'s `ToString`: the string of that one character.
#[verifier::external_body]
fn char_to_string(c: char) -> (r: String)
    ensures
        r@ == seq![c],
{
    c.to_string()
}

impl Detail {
    /// The text of the error.
    pub fn to_string(&self) -> (r: String)
        ensures
            r@ == detail_text(*self),
    {
        match self {
            Detail::Empty => {
                proof {
                    reveal_strlit("Empty");
                }
                String::from_str("Empty")
            },
            Detail::Uncompleted => {
                proof {
                    reveal_strlit("Uncompleted");
                }
                String::from_str("Uncompleted")
            },
            Detail::Path => {
                proof {
                    reveal_strlit("Path");
                }
                String::from_str("Path")
            },
            Detail::Whitespace => {
                proof {
                    reveal_strlit("Whitespace");
                }
                String::from_str("Whitespace")
            },
            Detail::Str(s) => String::from_str(s),
            Detail::Char(c) => char_to_string(*c),
            Detail::String(s) => s.clone(),
        }
    }
}

/// A lexer failure: `Fail` stops the parse, `Next` lets it try the next rule.
#[derive(Clone, Debug)]
pub enum LexError<K> {
    Fail(K, Span),
    Next(K, Span),
}

/// An error with the source region it concerns.
#[derive(Clone, Debug)]
pub struct ErrorMessage<E> {
    pub message: E,
    pub span: Span,
}

impl<E> ErrorMessage<E> {
    /// The message and span of a lexer failure, of either kind.
    pub fn from_lex(e: LexError<E>) -> (r: ErrorMessage<E>)
        ensures
            match e {
                LexError::Fail(m, s) => r.message == m && r.span == s,
                LexError::Next(m, s) => r.message == m && r.span == s,
            },
    {
        match e {
            LexError::Fail(m, s) => ErrorMessage { message: m, span: s },
            LexError::Next(m, s) => ErrorMessage { message: m, span: s },
        }
    }
}

impl<E> From<LexError<E>> for ErrorMessage<E> {
    fn from(e: LexError<E>) -> (r: ErrorMessage<E>) {
        ErrorMessage::from_lex(e)
    }
}

impl<E> vstd::std_specs::convert::FromSpecImpl<LexError<E>> for ErrorMessage<E> {
    open spec fn obeys_from_spec() -> bool {
        true
    }

    open spec fn from_spec(e: LexError<E>) -> ErrorMessage<E> {
        match e {
            LexError::Fail(m, s) => ErrorMessage { message: m, span: s },
            LexError::Next(m, s) => ErrorMessage { message: m, span: s },
        }
    }
}

/// How diagnostics are shown.
pub struct Config {
    pub color: bool,
    /// Stripped from the front of each file's path.
    pub prefix: Option<String>,
}

/// What reports diagnostics: the sources by path, and its configuration.
pub trait Emitter {
    /// Runs once a report is complete, before it is shown.
    fn callback() {
    }

    fn get(&self, path: &str) -> Option<&str>;

    fn config(&self) -> &Config;
}

/// The sources of the templates, by path, and the configuration. A path may
/// be listed more than once: lookups take its first entry.
pub struct EmitterConfig {
    pub sources: Vec<(String, String)>,
    pub config: Config,
}

/// The first source registered under `path`.
pub open spec fn source_of(sources: Seq<(String, String)>, path: Seq<char>) -> Option<Seq<char>>
    decreases sources.len(),
{
    if sources.len() == 0 {
        Option::None
    } else if sources[0].0@ == path {
        Option::Some(sources[0].1@)
    } else {
        source_of(sources.drop_first(), path)
    }
}

impl EmitterConfig {
    /// The source registered under `path`, the first one if several are.
    pub fn lookup(&self, path: &str) -> (r: Option<&str>)
        ensures
            match r {
                Option::Some(s) => source_of(self.sources@, path@) == Option::Some(s@),
                Option::None => source_of(self.sources@, path@) is None,
            },
    {
        let mut i: usize = 0;
        assert(self.sources@.skip(0) =~= self.sources@);
        while i < self.sources.len()
            invariant
                0 <= i <= self.sources@.len(),
                source_of(self.sources@, path@) == source_of(self.sources@.skip(i as int), path@),
            decreases self.sources@.len() - i,
        {
            let entry = &self.sources[i];
            assert(self.sources@.skip(i as int)[0] == self.sources@[i as int]);
            assert(self.sources@.skip(i as int).drop_first() =~= self.sources@.skip(i + 1));
            if str_eq(entry.0.as_str(), path) {
                return Some(entry.1.as_str());
            }
            i += 1;
        }
        None
    }
}

/// Whether two strings hold the same characters.
pub fn str_eq(a: &str, b: &str) -> (r: bool)
    ensures
        r == (a@ == b@),
{
    let n = a.unicode_len();
    if n != b.unicode_len() {
        return false;
    }
    let mut i: usize = 0;
    while i < n
        invariant
            n == a@.len(),
            n == b@.len(),
            0 <= i <= n,
            forall|k: int| 0 <= k < i ==> a@[k] == b@[k],
        decreases n - i,
    {
        if a.get_char(i) != b.get_char(i) {
            return false;
        }
        i += 1;
    }
    assert(a@ =~= b@);
    true
}

impl Emitter for EmitterConfig {
    fn get(&self, path: &str) -> (r: Option<&str>)
        ensures
            match r {
                Option::Some(s) => source_of(self.sources@, path@) == Option::Some(s@),
                Option::None => source_of(self.sources@, path@) is None,
            },
    {
        self.lookup(path)
    }

    fn config(&self) -> (r: &Config)
        ensures
            r == &self.config,
    {
        &self.config
    }
}


/// Index of the first character of the line that holds position `i`.
pub open spec fn line_start(t: Seq<char>, i: int) -> int
    decreases i,
{
    if i <= 0 {
        0
    } else if t[i - 1] == '\n' {
        i
    } else {
        line_start(t, i - 1)
    }
}

/// Index just past the last character of the line that holds position `i`.
pub open spec fn line_end(t: Seq<char>, i: int) -> int
    decreases t.len() - i,
{
    if i >= t.len() {
        t.len() as int
    } else if t[i] == '\n' {
        i
    } else {
        line_end(t, i + 1)
    }
}

/// The number of line breaks before position `i`.
pub open spec fn breaks_before(t: Seq<char>, i: int) -> int
    decreases i,
{
    if i <= 0 {
        0
    } else {
        breaks_before(t, i - 1) + if t[i - 1] == '\n' {
            1int
        } else {
            0int
        }
    }
}

/// The lines of a text that a span covers, and the span within them.
#[derive(Clone, Copy, Debug, PartialEq, Eq, Structural)]
pub struct Window {
    /// Start of the first covered line in the text.
    pub start: usize,
    /// End of the last covered line in the text.
    pub end: usize,
    /// Number of the first covered line, from 1.
    pub line: usize,
    /// The span, counted from `start`.
    pub lo: usize,
    pub hi: usize,
}

/// The whole lines that the characters `lo..hi` of `text` lie on.
pub fn window(text: &Vec<char>, lo: usize, hi: usize) -> (r: Window)
    requires
        lo <= hi <= text@.len() < usize::MAX,
    ensures
        r.start == line_start(text@, lo as int),
        r.end == line_end(text@, hi as int),
        r.line == 1 + breaks_before(text@, lo as int),
        r.lo == lo - r.start,
        r.hi == hi - r.start,
{
    let mut start: usize = lo;
    while start > 0 && text[start - 1] != '\n'
        invariant
            start <= lo <= text@.len(),
            line_start(text@, start as int) == line_start(text@, lo as int),
        decreases start,
    {
        start -= 1;
    }
    let mut end: usize = hi;
    while end < text.len() && text[end] != '\n'
        invariant
            hi <= end <= text@.len(),
            line_end(text@, end as int) == line_end(text@, hi as int),
        decreases text@.len() - end,
    {
        end += 1;
    }
    let mut line: usize = 1;
    let mut i: usize = 0;
    while i < lo
        invariant
            i <= lo <= text@.len() < usize::MAX,
            line == 1 + breaks_before(text@, i as int),
            line <= i + 1,
        decreases lo - i,
    {
        if text[i] == '\n' {
            line += 1;
        }
        i += 1;
    }
    proof {
        lemma_line_start_bound(text@, lo as int);
    }
    Window { start, end, line, lo: lo - start, hi: hi - start }
}

proof fn lemma_line_start_bound(t: Seq<char>, i: int)
    ensures
        0 <= line_start(t, i) <= if i < 0 {
            0
        } else {
            i
        },
    decreases i,
{
    if i > 0 {
        lemma_line_start_bound(t, i - 1);
    }
}


/// Entry `a` is reported before entry `b`: by start offset, then by position.
pub open spec fn reported_before(spans: Seq<Span>, a: usize, b: usize) -> bool {
    spans[a as int].lo < spans[b as int].lo || (spans[a as int].lo == spans[b as int].lo && a < b)
}

/// `r` lists each of `0..n` once.
pub open spec fn is_permutation(r: Seq<usize>, n: nat) -> bool {
    &&& r.len() == n
    &&& forall|k: int| 0 <= k < r.len() ==> (#[trigger] r[k]) < n
    &&& forall|a: int, b: int| 0 <= a < b < r.len() ==> r[a] != r[b]
}

pub open spec fn in_report_order(spans: Seq<Span>, r: Seq<usize>) -> bool {
    forall|a: int, b: int| 0 <= a < b < r.len() ==> reported_before(spans, #[trigger] r[a], #[trigger] r[b])
}

/// The order in which errors are reported: by the start of their span, and
/// in their given order where starts are equal.
pub fn order_by_start(spans: &Vec<Span>) -> (r: Vec<usize>)
    ensures
        is_permutation(r@, spans@.len()),
        in_report_order(spans@, r@),
{
    let mut out: Vec<usize> = Vec::new();
    let mut i: usize = 0;
    while i < spans.len()
        invariant
            0 <= i <= spans@.len(),
            is_permutation(out@, i as nat),
            in_report_order(spans@, out@),
        decreases spans@.len() - i,
    {
        let lo = spans[i].lo;
        let mut p: usize = out.len();
        while p > 0 && spans[out[p - 1]].lo > lo
            invariant
                0 <= p <= out@.len(),
                i < spans@.len(),
                is_permutation(out@, i as nat),
                forall|k: int| p <= k < out@.len() ==> spans@[#[trigger] out@[k] as int].lo > lo,
            decreases p,
        {
            p -= 1;
        }
        let ghost prev = out@;
        out.insert(p, i);
        proof {
            assert(out@ =~= prev.subrange(0, p as int) + seq![i] + prev.subrange(p as int, prev.len() as int));
            assert forall|a: int, b: int| 0 <= a < b < out@.len() implies reported_before(
                spans@,
                #[trigger] out@[a],
                #[trigger] out@[b],
            ) by {
                if b < p {
                    assert(out@[a] == prev[a] && out@[b] == prev[b]);
                } else if b == p {
                    assert(out@[a] == prev[a]);
                    if p > 0 {
                        assert(a <= p - 1);
                        assert(spans@[prev[p - 1] as int].lo <= lo);
                        if a < p - 1 {
                            assert(reported_before(spans@, prev[a], prev[p - 1]));
                        }
                    }
                } else if a == p {
                    assert(out@[b] == prev[b - 1]);
                } else if a < p {
                    assert(out@[a] == prev[a] && out@[b] == prev[b - 1]);
                } else {
                    assert(out@[a] == prev[a - 1] && out@[b] == prev[b - 1]);
                }
            }
            assert forall|a: int, b: int| 0 <= a < b < out@.len() implies out@[a] != out@[b] by {
                if a < p && b < p {
                    assert(out@[a] == prev[a] && out@[b] == prev[b]);
                } else if a < p && b > p {
                    assert(out@[a] == prev[a] && out@[b] == prev[b - 1]);
                } else if a > p {
                    assert(out@[a] == prev[a - 1] && out@[b] == prev[b - 1]);
                } else if a == p {
                    assert(out@[b] == prev[b - 1]);
                } else {
                    assert(out@[a] == prev[a]);
                }
            }
        }
        i += 1;
    }
    out
}

} // verus!
