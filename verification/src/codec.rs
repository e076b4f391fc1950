//! The flat-file template format.
//!
//! A template is stored as text:
//!
//! ```text
//! SENDGRID-TEMPLATE
//! <name>
//! ######
//! <plain-text body, one trailing newline guaranteed>
//! ######
//! <HTML body>
//! ```
//!
//! [`Template::write_to`] produces this text; [`Template::parse`] reads it
//! back, reporting a [`TemplateError`] for malformed input.

use vstd::prelude::*;

verus! {

/// A single email template: the unit of storage and comparison.
#[derive(Debug, Clone)]
pub struct Template {
    /// Provider-assigned identifier; must round-trip exactly. A name holding
    /// a newline cannot be represented by the format (known limitation).
    pub name: String,
    /// Plain-text body.
    pub plain_body: String,
    /// HTML body.
    pub html_body: String,
}

/// The mathematical value of a [`Template`]: its three fields as character
/// sequences.
pub struct TemplateView {
    pub name: Seq<char>,
    pub plain_body: Seq<char>,
    pub html_body: Seq<char>,
}

impl View for Template {
    type V = TemplateView;

    open spec fn view(&self) -> TemplateView {
        TemplateView { name: self.name@, plain_body: self.plain_body@, html_body: self.html_body@ }
    }
}

impl DeepView for Template {
    type V = TemplateView;

    open spec fn deep_view(&self) -> TemplateView {
        self.view()
    }
}

impl PartialEq for Template {
    /// Equality is structural: all three fields.
    fn eq(&self, other: &Template) -> (r: bool) {
        self.name == other.name && self.plain_body == other.plain_body
            && self.html_body == other.html_body
    }
}

impl Eq for Template {}

impl vstd::std_specs::cmp::PartialEqSpecImpl for Template {
    open spec fn obeys_eq_spec() -> bool {
        true
    }

    open spec fn eq_spec(&self, other: &Template) -> bool {
        self@ == other@
    }
}

/// Why a piece of text is not a stored template.
#[derive(Debug, Clone)]
pub enum TemplateError {
    /// Fewer than four newline-separated parts: no room for header line,
    /// name line, separator line and body section.
    HeaderInvalidFormat,
    /// The first line is not the header literal; carries the offending line.
    HeaderInvalidStart(String),
    /// The name line is empty.
    HeaderInvalidName,
    /// The third line is not the separator literal; carries the offending
    /// line.
    HeaderInvalidEnd(String),
    /// The plain body is never closed by a separator line.
    BodyPlainUnfinished,
}

/// The mathematical value of a [`TemplateError`].
pub enum TemplateErrorView {
    HeaderInvalidFormat,
    HeaderInvalidStart(Seq<char>),
    HeaderInvalidName,
    HeaderInvalidEnd(Seq<char>),
    BodyPlainUnfinished,
}

impl View for TemplateError {
    type V = TemplateErrorView;

    open spec fn view(&self) -> TemplateErrorView {
        match self {
            TemplateError::HeaderInvalidFormat => TemplateErrorView::HeaderInvalidFormat,
            TemplateError::HeaderInvalidStart(s) => TemplateErrorView::HeaderInvalidStart(s@),
            TemplateError::HeaderInvalidName => TemplateErrorView::HeaderInvalidName,
            TemplateError::HeaderInvalidEnd(s) => TemplateErrorView::HeaderInvalidEnd(s@),
            TemplateError::BodyPlainUnfinished => TemplateErrorView::BodyPlainUnfinished,
        }
    }
}

impl PartialEq for TemplateError {
    fn eq(&self, other: &TemplateError) -> (r: bool) {
        match (self, other) {
            (TemplateError::HeaderInvalidFormat, TemplateError::HeaderInvalidFormat) => true,
            (TemplateError::HeaderInvalidStart(a), TemplateError::HeaderInvalidStart(b)) => *a
                == *b,
            (TemplateError::HeaderInvalidName, TemplateError::HeaderInvalidName) => true,
            (TemplateError::HeaderInvalidEnd(a), TemplateError::HeaderInvalidEnd(b)) => *a == *b,
            (TemplateError::BodyPlainUnfinished, TemplateError::BodyPlainUnfinished) => true,
            _ => false,
        }
    }
}

impl Eq for TemplateError {}

impl vstd::std_specs::cmp::PartialEqSpecImpl for TemplateError {
    open spec fn obeys_eq_spec() -> bool {
        true
    }

    open spec fn eq_spec(&self, other: &TemplateError) -> bool {
        self@ == other@
    }
}

/// The description [`TemplateError::message`] returns, with the offending
/// line appended where the error carries one.
pub open spec fn spec_message(e: TemplateErrorView) -> Seq<char> {
    match e {
        TemplateErrorView::HeaderInvalidFormat => "header format invalid"@,
        TemplateErrorView::HeaderInvalidStart(s) => "header start invalid "@ + s,
        TemplateErrorView::HeaderInvalidName => "header name invalid"@,
        TemplateErrorView::HeaderInvalidEnd(s) => "header end invalid "@ + s,
        TemplateErrorView::BodyPlainUnfinished => "body unfinished plain body"@,
    }
}

impl TemplateError {
    /// A human-readable description of the error, for reporting.
    pub fn message(&self) -> (r: String)
        ensures
            r@ == spec_message(self@),
    {
        match self {
            TemplateError::HeaderInvalidFormat => String::from_str("header format invalid"),
            TemplateError::HeaderInvalidStart(s) => String::from_str(
                "header start invalid ",
            ).concat(s.as_str()),
            TemplateError::HeaderInvalidName => String::from_str("header name invalid"),
            TemplateError::HeaderInvalidEnd(s) => String::from_str("header end invalid ").concat(
                s.as_str(),
            ),
            TemplateError::BodyPlainUnfinished => String::from_str("body unfinished plain body"),
        }
    }
}

/// The fixed first line of every stored template.
pub open spec fn header_text() -> Seq<char> {
    "SENDGRID-TEMPLATE"@
}

/// The fixed line separating name from plain body and plain body from HTML
/// body.
pub open spec fn sep_text() -> Seq<char> {
    "######"@
}

/// A single newline, as a sequence.
pub open spec fn nl_text() -> Seq<char> {
    seq!['\n']
}

/// Whether `s` ends with a newline.
pub open spec fn ends_nl(s: Seq<char>) -> bool {
    s.len() > 0 && s.last() == '\n'
}

/// The plain body as it is written out: a newline is appended exactly when
/// the body does not already end with one.
pub open spec fn plain_section(p: Seq<char>) -> Seq<char> {
    if ends_nl(p) {
        p
    } else {
        p + nl_text()
    }
}

/// The exact text [`Template::write_to`] produces: header line, name line,
/// separator line, plain section (see [`plain_section`]), separator line,
/// HTML body, final newline.
pub open spec fn spec_encode(t: TemplateView) -> Seq<char> {
    header_text() + nl_text() + t.name + nl_text() + sep_text() + nl_text() + plain_section(
        t.plain_body,
    ) + sep_text() + nl_text() + t.html_body + nl_text()
}

impl Template {
    /// Append the encoded form of this template to `out`.
    pub fn write_to(&self, out: &mut String)
        ensures
            final(out)@ == old(out)@ + spec_encode(self@),
    {
        out.append("SENDGRID-TEMPLATE");
        out.append("\n");
        out.append(self.name.as_str());
        out.append("\n");
        out.append("######");
        out.append("\n");
        out.append(self.plain_body.as_str());
        if !ends_with_newline(self.plain_body.as_str()) {
            out.append("\n");
        }
        out.append("######");
        out.append("\n");
        out.append(self.html_body.as_str());
        out.append("\n");
        proof {
            reveal_strlit("\n");
            assert(out@ =~= old(out)@ + spec_encode(self@));
        }
    }
}

/// Whether the text's last character is a newline.
fn ends_with_newline(s: &str) -> (r: bool)
    ensures
        r == ends_nl(s@),
{
    let n = s.unicode_len();
    if n == 0 {
        false
    } else {
        let c = s.get_char(n - 1);
        c == '\n'
    }
}

/// Index of the first newline in `s` at or after `from`; `s.len()` if there
/// is none.
pub open spec fn find_nl(s: Seq<char>, from: int) -> int
    decreases s.len() - from,
{
    if from < 0 || from >= s.len() {
        s.len() as int
    } else if s[from] == '\n' {
        from
    } else {
        find_nl(s, from + 1)
    }
}

/// What [`find_nl`] returns: the first newline position, within bounds.
pub proof fn lemma_find_nl_bounds(s: Seq<char>, from: int)
    requires
        0 <= from <= s.len(),
    ensures
        from <= find_nl(s, from) <= s.len(),
        find_nl(s, from) < s.len() ==> s[find_nl(s, from)] == '\n',
        forall|k: int| from <= k < find_nl(s, from) ==> s[k] != '\n',
    decreases s.len() - from,
{
    if from < s.len() && s[from] != '\n' {
        lemma_find_nl_bounds(s, from + 1);
    }
}

/// A position that is preceded by no newline and holds one (or is the end)
/// is what [`find_nl`] returns.
pub proof fn lemma_find_nl_is(s: Seq<char>, from: int, j: int)
    requires
        0 <= from <= j <= s.len(),
        forall|k: int| from <= k < j ==> s[k] != '\n',
        j == s.len() || s[j] == '\n',
    ensures
        find_nl(s, from) == j,
    decreases j - from,
{
    if from < j {
        lemma_find_nl_is(s, from + 1, j);
    }
}

/// The lines of the body section before the first separator line, and the
/// text after that separator line; `None` if no line equals the separator.
/// A line is a maximal newline-free stretch; text ending in a newline has no
/// final empty line.
pub open spec fn plain_lines(s: Seq<char>) -> Option<(Seq<Seq<char>>, Seq<char>)>
    decreases s.len(),
    via plain_lines_decreases
{
    if s.len() == 0 {
        None
    } else {
        let j = find_nl(s, 0);
        let line = s.subrange(0, j);
        if line == sep_text() {
            Some(
                (
                    Seq::empty(),
                    if j < s.len() {
                        s.subrange(j + 1, s.len() as int)
                    } else {
                        Seq::empty()
                    },
                ),
            )
        } else if j >= s.len() {
            None
        } else {
            match plain_lines(s.subrange(j + 1, s.len() as int)) {
                None => None,
                Some(r) => Some((seq![line] + r.0, r.1)),
            }
        }
    }
}

#[via_fn]
proof fn plain_lines_decreases(s: Seq<char>) {
    if s.len() > 0 {
        lemma_find_nl_bounds(s, 0);
    }
}

/// The lines, put back together with a newline between each two.
pub open spec fn spec_join(ls: Seq<Seq<char>>) -> Seq<char>
    decreases ls.len(),
{
    if ls.len() == 0 {
        Seq::empty()
    } else if ls.len() == 1 {
        ls[0]
    } else {
        ls[0] + nl_text() + spec_join(ls.drop_first())
    }
}

/// Joining one more line appends it after a newline (or is it, when there
/// was nothing yet).
pub proof fn lemma_join_push(ls: Seq<Seq<char>>, x: Seq<char>)
    ensures
        spec_join(ls.push(x)) == if ls.len() == 0 {
            x
        } else {
            spec_join(ls) + nl_text() + x
        },
    decreases ls.len(),
{
    if ls.len() == 0 {
        assert(ls.push(x) =~= seq![x]);
        assert(spec_join(seq![x]) == x);
    } else {
        assert(ls.push(x).drop_first() =~= ls.drop_first().push(x));
        lemma_join_push(ls.drop_first(), x);
        if ls.len() == 1 {
            assert(spec_join(ls) == ls[0]);
        }
    }
}

/// The text, less one trailing newline if it has one: what joining its lines
/// with newlines gives back.
pub open spec fn strip_trailing_nl(s: Seq<char>) -> Seq<char> {
    if ends_nl(s) {
        s.drop_last()
    } else {
        s
    }
}

/// All the lines of the text: maximal newline-free stretches, a trailing
/// newline closing the last line rather than opening an empty one.
pub open spec fn split_lines(s: Seq<char>) -> Seq<Seq<char>>
    decreases s.len(),
    via split_lines_decreases
{
    if s.len() == 0 {
        Seq::empty()
    } else {
        let j = find_nl(s, 0);
        if j >= s.len() {
            seq![s]
        } else {
            seq![s.subrange(0, j)] + split_lines(s.subrange(j + 1, s.len() as int))
        }
    }
}

#[via_fn]
proof fn split_lines_decreases(s: Seq<char>) {
    if s.len() > 0 {
        lemma_find_nl_bounds(s, 0);
    }
}

/// Splitting text into lines and rejoining them with newlines gives the
/// text back, less one trailing newline if it had one: the form in which
/// the HTML body is read out of the stored text.
pub proof fn lemma_join_split_lines(s: Seq<char>)
    ensures
        spec_join(split_lines(s)) == strip_trailing_nl(s),
    decreases s.len(),
{
    if s.len() > 0 {
        lemma_find_nl_bounds(s, 0);
        let j = find_nl(s, 0);
        if j >= s.len() {
            assert(spec_join(seq![s]) == s);
        } else {
            let line = s.subrange(0, j);
            let tail = s.subrange(j + 1, s.len() as int);
            lemma_join_split_lines(tail);
            if tail.len() == 0 {
                assert(seq![line] + split_lines(tail) =~= seq![line]);
                assert(spec_join(seq![line]) == line);
                assert(ends_nl(s));
                assert(s.drop_last() =~= line);
            } else {
                let ls = seq![line] + split_lines(tail);
                assert(split_lines(tail).len() > 0);
                assert(ls.drop_first() =~= split_lines(tail));
                assert(spec_join(ls) == line + nl_text() + spec_join(split_lines(tail)));
                if ends_nl(tail) {
                    assert(ends_nl(s));
                    assert(s.drop_last() =~= line + nl_text() + tail.drop_last());
                } else {
                    assert(!ends_nl(s));
                    assert(s =~= line + nl_text() + tail);
                }
            }
        }
    }
}

/// The exact value of [`Template::parse`]: the input is cut at its first
/// three newlines into header line, name line, separator line and body
/// section (too few newlines: `HeaderInvalidFormat`); the three lines are
/// checked in that order (`HeaderInvalidStart` with the offending line, then
/// `HeaderInvalidName` for an empty name, then `HeaderInvalidEnd` with the
/// offending line); the body section is scanned line by line for the
/// separator (never found: `BodyPlainUnfinished`); the lines before it,
/// joined with newlines, are the plain body, and the text after it, less one
/// trailing newline, is the HTML body.
pub open spec fn spec_parse(s: Seq<char>) -> Result<TemplateView, TemplateErrorView> {
    let i0 = find_nl(s, 0);
    let i1 = find_nl(s, i0 + 1);
    let i2 = find_nl(s, i1 + 1);
    if i2 >= s.len() {
        Err(TemplateErrorView::HeaderInvalidFormat)
    } else if s.subrange(0, i0) != header_text() {
        Err(TemplateErrorView::HeaderInvalidStart(s.subrange(0, i0)))
    } else if i1 == i0 + 1 {
        Err(TemplateErrorView::HeaderInvalidName)
    } else if s.subrange(i1 + 1, i2) != sep_text() {
        Err(TemplateErrorView::HeaderInvalidEnd(s.subrange(i1 + 1, i2)))
    } else {
        match plain_lines(s.subrange(i2 + 1, s.len() as int)) {
            None => Err(TemplateErrorView::BodyPlainUnfinished),
            Some(r) => Ok(
                TemplateView {
                    name: s.subrange(i0 + 1, i1),
                    plain_body: spec_join(r.0),
                    html_body: strip_trailing_nl(r.1),
                },
            ),
        }
    }
}

/// Whether two pieces of text hold the same characters.
fn str_eq(a: &str, b: &str) -> (r: bool)
    ensures
        r == (a@ == b@),
{
    let na = a.unicode_len();
    let nb = b.unicode_len();
    if na != nb {
        return false;
    }
    let mut i: usize = 0;
    while i < na
        invariant
            0 <= i <= na,
            na == a@.len(),
            na == b@.len(),
            forall|k: int| 0 <= k < i ==> a@[k] == b@[k],
        decreases na - i,
    {
        let ca = a.get_char(i);
        let cb = b.get_char(i);
        if ca != cb {
            return false;
        }
        i = i + 1;
    }
    proof {
        assert(a@ =~= b@);
    }
    true
}

/// Position of the first newline in `s` at or after `from`, or `n` if none;
/// `n` is the character count of `s`.
fn find_newline(s: &str, from: usize, n: usize) -> (r: usize)
    requires
        from <= n,
        n == s@.len(),
    ensures
        r == find_nl(s@, from as int),
        from <= r <= n,
{
    let mut i: usize = from;
    while i < n
        invariant
            from <= i <= n,
            n == s@.len(),
            forall|k: int| from <= k < i ==> s@[k] != '\n',
        decreases n - i,
    {
        let c = s.get_char(i);
        if c == '\n' {
            proof {
                lemma_find_nl_is(s@, from as int, i as int);
            }
            return i;
        }
        i = i + 1;
    }
    proof {
        lemma_find_nl_is(s@, from as int, n as int);
    }
    n
}

/// The text, less one trailing newline if it has one, as an owned string.
fn strip_newline(s: &str) -> (r: String)
    ensures
        r@ == strip_trailing_nl(s@),
{
    let n = s.unicode_len();
    if n > 0 && s.get_char(n - 1) == '\n' {
        let head = s.substring_char(0, n - 1);
        proof {
            assert(head@ =~= s@.drop_last());
        }
        String::from_str(head)
    } else {
        String::from_str(s)
    }
}

/// Scan the body section: the plain body is the lines before the first
/// separator line, joined with newlines; the HTML body is what follows that
/// line, less one trailing newline. `None` if no line is the separator.
fn scan_bodies(rest: &str) -> (r: Option<(String, String)>)
    ensures
        match r {
            None => plain_lines(rest@) is None,
            Some(pair) => match plain_lines(rest@) {
                Some(whole) => pair.0@ == spec_join(whole.0) && pair.1@ == strip_trailing_nl(
                    whole.1,
                ),
                None => false,
            },
        },
{
    let m = rest.unicode_len();
    let mut pos: usize = 0;
    let mut plain = String::new();
    let mut first: bool = true;
    let ghost mut consumed: Seq<Seq<char>> = Seq::empty();
    proof {
        assert(rest@.subrange(0, m as int) =~= rest@);
        match plain_lines(rest@) {
            None => {},
            Some(whole) => {
                assert(consumed + whole.0 =~= whole.0);
            },
        }
    }
    loop
        invariant
            pos <= m,
            m == rest@.len(),
            first <==> consumed.len() == 0,
            plain@ == spec_join(consumed),
            (match plain_lines(rest@.subrange(pos as int, m as int)) {
                None => plain_lines(rest@) is None,
                Some(sub) => match plain_lines(rest@) {
                    Some(whole) => whole.0 == consumed + sub.0 && whole.1 == sub.1,
                    None => false,
                },
            }),
        decreases m - pos,
    {
        let ghost suffix = rest@.subrange(pos as int, m as int);
        if pos == m {
            proof {
                assert(suffix =~= Seq::<char>::empty());
            }
            return None;
        }
        let j = find_newline(rest, pos, m);
        let line = rest.substring_char(pos, j);
        proof {
            lemma_find_nl_bounds(rest@, pos as int);
            assert(forall|k: int| 0 <= k < j - pos ==> suffix[k] == rest@[pos + k]);
            if j < m {
                lemma_find_nl_is(suffix, 0, j - pos);
            } else {
                lemma_find_nl_is(suffix, 0, suffix.len() as int);
            }
            assert(find_nl(suffix, 0) == j - pos);
            assert(line@ =~= suffix.subrange(0, j - pos));
        }
        if str_eq(line, "######") {
            let remainder = if j == m {
                rest.substring_char(m, m)
            } else {
                rest.substring_char(j + 1, m)
            };
            proof {
                if j == m {
                    assert(remainder@ =~= Seq::<char>::empty());
                } else {
                    assert(remainder@ =~= suffix.subrange(j - pos + 1, suffix.len() as int));
                }
                assert(plain_lines(suffix) == Some((Seq::<Seq<char>>::empty(), remainder@)));
                assert(consumed + Seq::<Seq<char>>::empty() =~= consumed);
            }
            let html = strip_newline(remainder);
            return Some((plain, html));
        }
        if j == m {
            proof {
                assert(plain_lines(suffix) is None);
            }
            return None;
        }
        proof {
            assert(rest@.subrange(j + 1 as int, m as int) =~= suffix.subrange(
                j - pos + 1,
                suffix.len() as int,
            ));
        }
        if first {
            first = false;
        } else {
            plain.append("\n");
        }
        plain.append(line);
        proof {
            reveal_strlit("\n");
            assert("\n"@ =~= nl_text());
            lemma_join_push(consumed, line@);
            consumed = consumed.push(line@);
            assert(plain@ == spec_join(consumed));
            match plain_lines(rest@.subrange(j + 1 as int, m as int)) {
                None => {},
                Some(sub2) => {
                    assert(plain_lines(suffix) == Some((seq![line@] + sub2.0, sub2.1)));
                    assert(consumed + sub2.0 =~= (consumed.drop_last() + (seq![line@] + sub2.0)));
                },
            }
        }
        pos = j + 1;
    }
}

/// Whether some line of the text (a maximal newline-free stretch) is
/// exactly the separator line.
pub open spec fn has_sep_line(s: Seq<char>) -> bool
    decreases s.len(),
    via has_sep_line_decreases
{
    if s.len() == 0 {
        false
    } else {
        let j = find_nl(s, 0);
        s.subrange(0, j) == sep_text() || (j < s.len() && has_sep_line(
            s.subrange(j + 1, s.len() as int),
        ))
    }
}

#[via_fn]
proof fn has_sep_line_decreases(s: Seq<char>) {
    if s.len() > 0 {
        lemma_find_nl_bounds(s, 0);
    }
}

/// The body scan fails exactly on text none of whose lines is the
/// separator.
pub proof fn lemma_plain_lines_none(s: Seq<char>)
    ensures
        plain_lines(s) is None <==> !has_sep_line(s),
    decreases s.len(),
{
    if s.len() > 0 {
        lemma_find_nl_bounds(s, 0);
        let j = find_nl(s, 0);
        if s.subrange(0, j) != sep_text() && j < s.len() {
            lemma_plain_lines_none(s.subrange(j + 1, s.len() as int));
        }
    }
}

/// Character-level facts about the two format literals: their lengths, that
/// neither holds a newline, and that they differ.
pub proof fn lemma_literal_facts()
    ensures
        header_text().len() == 17,
        sep_text().len() == 6,
        forall|k: int| 0 <= k < header_text().len() ==> header_text()[k] != '\n',
        forall|k: int| 0 <= k < sep_text().len() ==> sep_text()[k] != '\n',
        header_text() != sep_text(),
{
    reveal_strlit("SENDGRID-TEMPLATE");
    reveal_strlit("######");
}

/// Appending a trailing newline to text neither adds nor removes a
/// separator line: the newline only closes the last line.
pub proof fn lemma_sep_line_trailing_nl(p: Seq<char>)
    ensures
        has_sep_line(p + nl_text()) == has_sep_line(p),
    decreases p.len(),
{
    lemma_literal_facts();
    let q = p + nl_text();
    assert(!has_sep_line(Seq::<char>::empty()));
    if p.len() == 0 {
        assert(find_nl(q, 0) == 0) by {
            lemma_find_nl_is(q, 0, 0);
        }
        assert(q.subrange(0, 0) =~= Seq::<char>::empty());
        assert(q.subrange(1, 1) =~= Seq::<char>::empty());
        assert(!has_sep_line(q));
        assert(!has_sep_line(p));
    } else {
        lemma_find_nl_bounds(p, 0);
        let j = find_nl(p, 0);
        if j < p.len() {
            lemma_find_nl_is(q, 0, j);
            assert(q.subrange(0, j) =~= p.subrange(0, j));
            assert(q.subrange(j + 1, q.len() as int) =~= p.subrange(j + 1, p.len() as int)
                + nl_text());
            lemma_sep_line_trailing_nl(p.subrange(j + 1, p.len() as int));
        } else {
            lemma_find_nl_is(q, 0, p.len() as int);
            assert(q.subrange(0, p.len() as int) =~= p.subrange(0, j));
            assert(q.subrange(p.len() as int + 1, q.len() as int) =~= Seq::<char>::empty());
            assert(has_sep_line(q) == (q.subrange(0, p.len() as int) == sep_text()));
            assert(has_sep_line(p) == (p.subrange(0, j) == sep_text()));
        }
    }
}

/// Scanning a body section built from a newline-terminated plain section
/// without separator lines, a separator line, and a tail: the scan finds
/// exactly the plain section's lines, and leaves exactly the tail.
proof fn lemma_scan_section(p: Seq<char>, h: Seq<char>)
    requires
        p.len() > 0,
        p.last() == '\n',
        !has_sep_line(p),
    ensures
        ({
            let r = plain_lines(p + sep_text() + nl_text() + h);
            &&& r is Some
            &&& r matches Some(pr) ==> pr.0.len() > 0 && spec_join(pr.0) == p.drop_last()
                && pr.1 == h
        }),
    decreases p.len(),
{
    lemma_literal_facts();
    let s = p + sep_text() + nl_text() + h;
    lemma_find_nl_bounds(p, 0);
    let j = find_nl(p, 0);
    assert(j < p.len());
    lemma_find_nl_is(s, 0, j);
    let line = s.subrange(0, j);
    assert(line =~= p.subrange(0, j));
    assert(line != sep_text());
    let tail = s.subrange(j + 1, s.len() as int);
    let p2 = p.subrange(j + 1, p.len() as int);
    if p2.len() == 0 {
        // The consumed line was the whole of `p` but for its newline: the
        // scan now faces the separator line directly.
        assert(j == p.len() - 1);
        assert(tail =~= sep_text() + nl_text() + h);
        assert(forall|k: int| 0 <= k < sep_text().len() ==> tail[k] != '\n');
        assert(tail[sep_text().len() as int] == '\n');
        lemma_find_nl_is(tail, 0, sep_text().len() as int);
        assert(tail.subrange(0, sep_text().len() as int) =~= sep_text());
        assert(tail.subrange(sep_text().len() as int + 1, tail.len() as int) =~= h);
        let lines = plain_lines(s)->Some_0.0;
        assert(lines =~= seq![line] + Seq::<Seq<char>>::empty());
        assert(lines =~= seq![line]);
        assert(spec_join(seq![line]) == line);
        assert(line =~= p.drop_last());
    } else {
        assert(p2.last() == '\n');
        assert(!has_sep_line(p2));
        lemma_scan_section(p2, h);
        assert(tail =~= p2 + sep_text() + nl_text() + h);
        let pr2 = plain_lines(tail)->Some_0;
        let lines = seq![line] + pr2.0;
        assert(plain_lines(s) == Some((lines, pr2.1)));
        assert(lines.len() >= 2);
        assert(lines.drop_first() =~= pr2.0);
        assert(spec_join(lines) == line + nl_text() + spec_join(pr2.0));
        assert(p.drop_last() =~= line + nl_text() + p2.drop_last());
    }
}

/// Round trip: a template whose name is non-empty and newline-free, and
/// whose plain body has no separator line and no trailing newline, is read
/// back exactly from its encoded text.
pub proof fn lemma_round_trip(t: TemplateView)
    requires
        t.name.len() > 0,
        forall|k: int| 0 <= k < t.name.len() ==> t.name[k] != '\n',
        !has_sep_line(t.plain_body),
        !ends_nl(t.plain_body),
    ensures
        spec_parse(spec_encode(t)) == Ok::<TemplateView, TemplateErrorView>(t),
{
    lemma_literal_facts();
    let e = spec_encode(t);
    let p = plain_section(t.plain_body);
    let h = t.html_body + nl_text();
    let hl = header_text().len() as int;
    let i0 = hl;
    let i1 = i0 + 1 + t.name.len() as int;
    let i2 = i1 + 1 + sep_text().len() as int;
    assert(e =~= header_text() + nl_text() + t.name + nl_text() + sep_text() + nl_text() + (p
        + sep_text() + nl_text() + h));
    lemma_find_nl_is(e, 0, i0);
    lemma_find_nl_is(e, i0 + 1, i1);
    lemma_find_nl_is(e, i1 + 1, i2);
    assert(e.subrange(0, i0) =~= header_text());
    assert(e.subrange(i0 + 1, i1) =~= t.name);
    assert(e.subrange(i1 + 1, i2) =~= sep_text());
    let rest = e.subrange(i2 + 1, e.len() as int);
    assert(rest =~= p + sep_text() + nl_text() + h);
    assert(p.len() > 0 && p.last() == '\n');
    assert(!has_sep_line(p)) by {
        lemma_sep_line_trailing_nl(t.plain_body);
    }
    lemma_scan_section(p, h);
    let pr = plain_lines(rest)->Some_0;
    assert(spec_join(pr.0) == p.drop_last());
    assert(p.drop_last() =~= t.plain_body);
    assert(strip_trailing_nl(pr.1) =~= t.html_body);
    assert(spec_parse(e)->Ok_0 == t);
}

/// The plain section carries exactly one mandated trailing newline: a body
/// already ending in a newline is written unchanged, any other gets exactly
/// one newline appended; either way the section ends in a newline.
pub proof fn lemma_plain_section_newline(p: Seq<char>)
    ensures
        ends_nl(plain_section(p)),
        ends_nl(p) ==> plain_section(p) == p,
        !ends_nl(p) ==> plain_section(p) == p + nl_text(),
{
}

/// Classification of malformed input, at each stage of the parse: too few
/// newlines, a wrong header line, an empty name line, a wrong separator
/// line, and a body section never closed by a separator line.
pub proof fn lemma_malformed_classification(s: Seq<char>)
    ensures
        ({
            let i0 = find_nl(s, 0);
            let i1 = find_nl(s, i0 + 1);
            let i2 = find_nl(s, i1 + 1);
            &&& (i2 >= s.len() ==> spec_parse(s) == Err::<TemplateView, TemplateErrorView>(
                TemplateErrorView::HeaderInvalidFormat,
            ))
            &&& (i2 < s.len() && s.subrange(0, i0) != header_text() ==> spec_parse(s)
                == Err::<TemplateView, TemplateErrorView>(
                TemplateErrorView::HeaderInvalidStart(s.subrange(0, i0)),
            ))
            &&& (i2 < s.len() && s.subrange(0, i0) == header_text() && i1 == i0 + 1
                ==> spec_parse(s) == Err::<TemplateView, TemplateErrorView>(
                TemplateErrorView::HeaderInvalidName,
            ))
            &&& (i2 < s.len() && s.subrange(0, i0) == header_text() && i1 > i0 + 1 && s.subrange(
                i1 + 1,
                i2,
            ) != sep_text() ==> spec_parse(s) == Err::<TemplateView, TemplateErrorView>(
                TemplateErrorView::HeaderInvalidEnd(s.subrange(i1 + 1, i2)),
            ))
            &&& (i2 < s.len() && s.subrange(0, i0) == header_text() && i1 > i0 + 1 && s.subrange(
                i1 + 1,
                i2,
            ) == sep_text() && !has_sep_line(s.subrange(i2 + 1, s.len() as int)) ==> spec_parse(s)
                == Err::<TemplateView, TemplateErrorView>(TemplateErrorView::BodyPlainUnfinished))
        }),
{
    let i0 = find_nl(s, 0);
    let i1 = find_nl(s, i0 + 1);
    let i2 = find_nl(s, i1 + 1);
    lemma_find_nl_bounds(s, 0);
    if i0 < s.len() {
        lemma_find_nl_bounds(s, i0 + 1);
        if i1 < s.len() {
            lemma_find_nl_bounds(s, i1 + 1);
        }
    }
    if i2 < s.len() {
        lemma_plain_lines_none(s.subrange(i2 + 1, s.len() as int));
    }
}

impl Template {
    /// Read a template back from its stored text. The result is exactly
    /// [`spec_parse`] of the input.
    pub fn parse(content: &str) -> (r: Result<Template, TemplateError>)
        ensures
            match r {
                Ok(t) => spec_parse(content@) == Ok::<TemplateView, TemplateErrorView>(t@),
                Err(e) => spec_parse(content@) == Err::<TemplateView, TemplateErrorView>(e@),
            },
    {
        let n = content.unicode_len();
        let i0 = find_newline(content, 0, n);
        if i0 == n {
            return Err(TemplateError::HeaderInvalidFormat);
        }
        let i1 = find_newline(content, i0 + 1, n);
        if i1 == n {
            return Err(TemplateError::HeaderInvalidFormat);
        }
        let i2 = find_newline(content, i1 + 1, n);
        if i2 == n {
            return Err(TemplateError::HeaderInvalidFormat);
        }
        let part0 = content.substring_char(0, i0);
        if !str_eq(part0, "SENDGRID-TEMPLATE") {
            return Err(TemplateError::HeaderInvalidStart(String::from_str(part0)));
        }
        if i1 == i0 + 1 {
            return Err(TemplateError::HeaderInvalidName);
        }
        let name = String::from_str(content.substring_char(i0 + 1, i1));
        let part2 = content.substring_char(i1 + 1, i2);
        if !str_eq(part2, "######") {
            return Err(TemplateError::HeaderInvalidEnd(String::from_str(part2)));
        }
        let rest = content.substring_char(i2 + 1, n);
        match scan_bodies(rest) {
            None => Err(TemplateError::BodyPlainUnfinished),
            Some(bodies) => Ok(
                Template { name, plain_body: bodies.0, html_body: bodies.1 },
            ),
        }
    }
}

} // verus!
