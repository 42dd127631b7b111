//! The line-oriented `identifier = value` grammar shared by theme manifests
//! and cursor metadata.
//!
//! Everything here is stated over sequences of characters. A text is cut into
//! lines, a line into an identifier and a value at its first `=`, and both
//! parts lose their surrounding whitespace. Lines without `=` carry nothing.

use vstd::prelude::*;
use vstd::string::*;

verus! {

/// The text that an optional string holds.
pub open spec fn text_of(s: Option<String>) -> Option<Seq<char>> {
    match s {
        Some(s) => Some(s@),
        None => None,
    }
}

/// The characters that count as whitespace: the code points with the Unicode
/// property `White_Space`.
pub open spec fn is_whitespace(c: char) -> bool {
    let n = c as u32;
    (0x09 <= n && n <= 0x0D) || n == 0x20 || n == 0x85 || n == 0xA0 || n == 0x1680 || (0x2000 <= n
        && n <= 0x200A) || n == 0x2028 || n == 0x2029 || n == 0x202F || n == 0x205F || n == 0x3000
}

/// The index of the first `c` in `s`, or `s.len()` where `s` holds none.
pub open spec fn find(s: Seq<char>, c: char) -> int
    decreases s.len(),
{
    if s.len() == 0 || s[0] == c {
        0
    } else {
        1 + find(s.drop_first(), c)
    }
}

/// `s` without its leading whitespace.
pub open spec fn trim_start(s: Seq<char>) -> Seq<char>
    decreases s.len(),
{
    if s.len() > 0 && is_whitespace(s[0]) {
        trim_start(s.drop_first())
    } else {
        s
    }
}

/// `s` without its trailing whitespace.
pub open spec fn trim_end(s: Seq<char>) -> Seq<char>
    decreases s.len(),
{
    if s.len() > 0 && is_whitespace(s.last()) {
        trim_end(s.drop_last())
    } else {
        s
    }
}

/// `s` without its surrounding whitespace.
pub open spec fn trim(s: Seq<char>) -> Seq<char> {
    trim_end(trim_start(s))
}

/// The pieces of `s` between its occurrences of `c`. There is always at
/// least one piece; a text without `c` is its own single piece.
pub open spec fn split(s: Seq<char>, c: char) -> Seq<Seq<char>>
    decreases s.len(),
{
    let k = find(s, c);
    if 0 <= k < s.len() {
        seq![s.take(k)] + split(s.skip(k + 1), c)
    } else {
        seq![s]
    }
}

/// A line as it was cut at a line feed, without the carriage return that may
/// precede the line feed.
pub open spec fn strip_cr(line: Seq<char>) -> Seq<char> {
    if line.len() > 0 && line.last() == '\r' {
        line.drop_last()
    } else {
        line
    }
}

/// The lines of a text. A line ends at a line feed, or at a carriage return
/// directly followed by one; the last line needs no line ending, and a text
/// that ends in a line ending has no empty line after it.
pub open spec fn lines(text: Seq<char>) -> Seq<Seq<char>>
    decreases text.len(),
{
    if text.len() == 0 {
        Seq::empty()
    } else {
        let k = find(text, '\n');
        if 0 <= k < text.len() {
            seq![strip_cr(text.take(k))] + lines(text.skip(k + 1))
        } else {
            seq![text]
        }
    }
}

/// What one line says: the trimmed identifier before its first `=` and the
/// trimmed value after it, or nothing where the line holds no `=`.
pub open spec fn entry_of(line: Seq<char>) -> Option<(Seq<char>, Seq<char>)> {
    let k = find(line, '=');
    if 0 <= k < line.len() {
        Some((trim(line.take(k)), trim(line.skip(k + 1))))
    } else {
        None
    }
}

/// The entries of a sequence of lines, in order; lines without `=` are left
/// out.
pub open spec fn collect_entries(ls: Seq<Seq<char>>) -> Seq<(Seq<char>, Seq<char>)>
    decreases ls.len(),
{
    if ls.len() == 0 {
        Seq::empty()
    } else {
        match entry_of(ls[0]) {
            Some(e) => seq![e] + collect_entries(ls.drop_first()),
            None => collect_entries(ls.drop_first()),
        }
    }
}

/// The entries of a whole text: one per line that holds `=`, in order.
pub open spec fn entries(text: Seq<char>) -> Seq<(Seq<char>, Seq<char>)> {
    collect_entries(lines(text))
}

/// `find` stays within the text, passes over nothing that equals `c`, and
/// stops on `c` where it stops inside the text.
pub proof fn lemma_find(s: Seq<char>, c: char)
    ensures
        0 <= find(s, c) <= s.len(),
        forall|j: int| 0 <= j < find(s, c) ==> s[j] != c,
        find(s, c) < s.len() ==> s[find(s, c)] == c,
    decreases s.len(),
{
    if s.len() == 0 || s[0] == c {
    } else {
        let rest = s.drop_first();
        lemma_find(rest, c);
        assert forall|j: int| 0 <= j < find(s, c) implies s[j] != c by {
            if j > 0 {
                assert(s[j] == rest[j - 1]);
            }
        }
        assert(find(s, c) < s.len() ==> s[find(s, c)] == rest[find(rest, c)]);
    }
}

/// An index that passes over nothing equal to `c` and stops on `c` or at the
/// end is the one `find` gives.
pub proof fn lemma_find_is(s: Seq<char>, c: char, k: int)
    requires
        0 <= k <= s.len(),
        forall|j: int| 0 <= j < k ==> s[j] != c,
        k < s.len() ==> s[k] == c,
    ensures
        find(s, c) == k,
    decreases s.len(),
{
    if s.len() == 0 || s[0] == c {
    } else {
        let rest = s.drop_first();
        assert forall|j: int| 0 <= j < k - 1 implies rest[j] != c by {
            assert(rest[j] == s[j + 1]);
        }
        lemma_find_is(rest, c, k - 1);
    }
}

/// How `split` starts: its first piece ends at the first `c`, and the other
/// pieces are those of what follows that `c`.
pub proof fn lemma_split(s: Seq<char>, c: char)
    ensures
        split(s, c).len() >= 1,
        split(s, c)[0] == s.take(find(s, c)),
        find(s, c) < s.len() ==> split(s, c).len() >= 2 && split(s, c).drop_first() == split(
            s.skip(find(s, c) + 1),
            c,
        ),
        find(s, c) >= s.len() ==> split(s, c).len() == 1,
{
    lemma_find(s, c);
    let k = find(s, c);
    if k < s.len() {
        let rest = split(s.skip(k + 1), c);
        lemma_find(s.skip(k + 1), c);
        assert(rest.len() >= 1);
        assert((seq![s.take(k)] + rest).drop_first() =~= rest);
    } else {
        assert(s.take(k) =~= s);
    }
}

/// Leading whitespace up to the first character that is none is what
/// `trim_start` drops.
pub proof fn lemma_trim_start_is(s: Seq<char>, a: int)
    requires
        0 <= a <= s.len(),
        forall|j: int| 0 <= j < a ==> is_whitespace(s[j]),
        a < s.len() ==> !is_whitespace(s[a]),
    ensures
        trim_start(s) == s.skip(a),
    decreases a,
{
    if a == 0 {
        assert(s.skip(0) =~= s);
    } else {
        let rest = s.drop_first();
        assert forall|j: int| 0 <= j < a - 1 implies is_whitespace(rest[j]) by {
            assert(rest[j] == s[j + 1]);
        }
        lemma_trim_start_is(rest, a - 1);
        assert(rest.skip(a - 1) =~= s.skip(a));
    }
}

/// Trailing whitespace down to the last character that is none is what
/// `trim_end` drops.
pub proof fn lemma_trim_end_is(s: Seq<char>, b: int)
    requires
        0 <= b <= s.len(),
        forall|j: int| b <= j < s.len() ==> is_whitespace(s[j]),
        b > 0 ==> !is_whitespace(s[b - 1]),
    ensures
        trim_end(s) == s.take(b),
    decreases s.len() - b,
{
    if b == s.len() {
        assert(s.take(b) =~= s);
    } else {
        let rest = s.drop_last();
        lemma_trim_end_is(rest, b);
        assert(rest.take(b) =~= s.take(b));
    }
}

/// The bounds of the trimmed part of a text give its `trim`.
pub proof fn lemma_trim_is(s: Seq<char>, a: int, b: int)
    requires
        0 <= a <= b <= s.len(),
        forall|j: int| 0 <= j < a ==> is_whitespace(s[j]),
        forall|j: int| b <= j < s.len() ==> is_whitespace(s[j]),
        a < b ==> !is_whitespace(s[a]) && !is_whitespace(s[b - 1]),
    ensures
        trim(s) == s.subrange(a, b),
{
    if a < b {
        lemma_trim_start_is(s, a);
        let t = s.skip(a);
        assert forall|j: int| b - a <= j < t.len() implies is_whitespace(t[j]) by {
            assert(t[j] == s[j + a]);
        }
        lemma_trim_end_is(t, b - a);
        assert(t.take(b - a) =~= s.subrange(a, b));
    } else {
        // every character is whitespace
        lemma_trim_start_is(s, s.len() as int);
        assert(s.skip(s.len() as int) =~= Seq::<char>::empty());
        assert(s.subrange(a, b) =~= Seq::<char>::empty());
    }
}

/// Whether `c` is whitespace.
pub fn char_is_whitespace(c: char) -> (b: bool)
    ensures
        b == is_whitespace(c),
{
    let n: u32 = c as u32;
    (0x09 <= n && n <= 0x0D) || n == 0x20 || n == 0x85 || n == 0xA0 || n == 0x1680 || (0x2000 <= n
        && n <= 0x200A) || n == 0x2028 || n == 0x2029 || n == 0x202F || n == 0x205F || n == 0x3000
}

/// The characters of a text, one by one.
pub fn to_chars(text: &str) -> (chars: Vec<char>)
    ensures
        chars@ == text@,
{
    let mut chars: Vec<char> = Vec::new();
    for c in it: text.chars()
        invariant
            chars@ == it.seq().take(it.index() as int),
            it.seq() == text@,
    {
        chars.push(c);
    }
    chars
}

/// Whether two texts hold the same characters.
pub fn same_text(a: &str, b: &str) -> (same: bool)
    ensures
        same == (a@ == b@),
{
    let x = to_chars(a);
    let y = to_chars(b);
    if x.len() != y.len() {
        return false;
    }
    let mut i: usize = 0;
    while i < x.len()
        invariant
            i <= x.len(),
            x.len() == y.len(),
            x@ == a@,
            y@ == b@,
            forall|j: int| 0 <= j < i ==> x@[j] == y@[j],
        decreases x.len() - i,
    {
        if x[i] != y[i] {
            return false;
        }
        i += 1;
    }
    assert(x@ =~= y@);
    true
}

/// The index of the first `c` in `chars[from..to]`, counted in `chars`, or
/// `to` where that part holds none.
pub fn find_char(chars: &Vec<char>, from: usize, to: usize, c: char) -> (at: usize)
    requires
        from <= to <= chars.len(),
    ensures
        from <= at <= to,
        at - from == find(chars@.subrange(from as int, to as int), c),
{
    let mut i: usize = from;
    while i < to && chars[i] != c
        invariant
            from <= i <= to <= chars.len(),
            forall|j: int| from <= j < i ==> chars@[j] != c,
        decreases to - i,
    {
        i += 1;
    }
    proof {
        lemma_find_is(chars@.subrange(from as int, to as int), c, i - from);
    }
    i
}

/// The bounds, counted in `chars`, of what `chars[from..to]` holds between
/// its surrounding whitespace.
pub fn trim_range(chars: &Vec<char>, from: usize, to: usize) -> (bounds: (usize, usize))
    requires
        from <= to <= chars.len(),
    ensures
        from <= bounds.0 <= bounds.1 <= to,
        chars@.subrange(bounds.0 as int, bounds.1 as int) == trim(
            chars@.subrange(from as int, to as int),
        ),
{
    let mut a: usize = from;
    while a < to && char_is_whitespace(chars[a])
        invariant
            from <= a <= to <= chars.len(),
            forall|j: int| from <= j < a ==> is_whitespace(chars@[j]),
        decreases to - a,
    {
        a += 1;
    }
    let mut b: usize = to;
    while a < b && char_is_whitespace(chars[b - 1])
        invariant
            from <= a <= b <= to <= chars.len(),
            forall|j: int| b <= j < to ==> is_whitespace(chars@[j]),
        decreases b - a,
    {
        b -= 1;
    }
    proof {
        let s = chars@.subrange(from as int, to as int);
        lemma_trim_is(s, a - from, b - from);
        assert(s.subrange(a - from, b - from) =~= chars@.subrange(a as int, b as int));
    }
    (a, b)
}

/// The text `chars[from..to]` of `text`, trimmed.
pub fn trimmed_piece(text: &str, chars: &Vec<char>, from: usize, to: usize) -> (piece: String)
    requires
        chars@ == text@,
        from <= to <= chars.len(),
    ensures
        piece@ == trim(text@.subrange(from as int, to as int)),
{
    let (a, b) = trim_range(chars, from, to);
    text.substring_char(a, b).to_owned()
}

/// One `identifier = value` line of a text.
#[derive(Debug)]
pub struct Entry {
    /// What stands before the first `=`, trimmed.
    pub ident: String,
    /// What stands after the first `=`, trimmed.
    pub value: String,
}

impl View for Entry {
    type V = (Seq<char>, Seq<char>);

    open spec fn view(&self) -> (Seq<char>, Seq<char>) {
        (self.ident@, self.value@)
    }
}

/// The entries that a vector holds, as pairs of texts.
pub open spec fn entry_views(v: Seq<Entry>) -> Seq<(Seq<char>, Seq<char>)> {
    Seq::new(v.len(), |i: int| v[i]@)
}

/// Cuts one line at its first `=` into a trimmed identifier and a trimmed
/// value. A line without `=` gives nothing.
pub fn parse_line(line: &str) -> (entry: Option<Entry>)
    ensures
        match entry {
            Some(e) => entry_of(line@) == Some(e@),
            None => entry_of(line@) is None,
        },
{
    let chars = to_chars(line);
    let n: usize = chars.len();
    let eq: usize = find_char(&chars, 0, n, '=');
    assert(chars@.subrange(0, n as int) =~= line@);
    if eq < n {
        let ident = trimmed_piece(line, &chars, 0, eq);
        let value = trimmed_piece(line, &chars, eq + 1, n);
        Some(Entry { ident, value })
    } else {
        None
    }
}

/// Reads a whole text: one entry for each line that holds `=`, in order.
pub fn parse_entries(text: &str) -> (found: Vec<Entry>)
    ensures
        entry_views(found@) == entries(text@),
{
    let chars = to_chars(text);
    let n: usize = chars.len();
    let mut found: Vec<Entry> = Vec::new();
    let mut pos: usize = 0;
    assert(text@.skip(0) =~= text@);
    while pos < n
        invariant
            pos <= n,
            n == chars.len(),
            chars@ == text@,
            entries(text@) == entry_views(found@) + entries(text@.skip(pos as int)),
        decreases n - pos,
    {
        let ghost rest = text@.skip(pos as int);
        let ghost before = entry_views(found@);
        assert(rest =~= chars@.subrange(pos as int, n as int));
        let nl: usize = find_char(&chars, pos, n, '\n');
        let mut end: usize = nl;
        let mut next: usize = n;
        if nl < n {
            next = nl + 1;
            if pos < nl && chars[nl - 1] == '\r' {
                end = nl - 1;
            }
        }
        let ghost line = text@.subrange(pos as int, end as int);
        proof {
            let k = find(rest, '\n');
            assert(k == nl - pos);
            if nl < n {
                assert(rest.take(k) =~= text@.subrange(pos as int, nl as int));
                assert(strip_cr(rest.take(k)) =~= line);
                assert(rest.skip(k + 1) =~= text@.skip(next as int));
                assert(lines(rest) == seq![line] + lines(text@.skip(next as int)));
            } else {
                assert(line =~= rest);
                assert(text@.skip(next as int) =~= Seq::<char>::empty());
                assert(lines(rest) == seq![line]);
                assert(seq![line] + lines(text@.skip(next as int)) =~= seq![line]);
            }
            assert(lines(rest)[0] == line);
            assert(lines(rest).drop_first() =~= lines(text@.skip(next as int)));
        }
        let eq: usize = find_char(&chars, pos, end, '=');
        if eq < end {
            let ident = trimmed_piece(text, &chars, pos, eq);
            let value = trimmed_piece(text, &chars, eq + 1, end);
            proof {
                let k = find(line, '=');
                assert(k == eq - pos);
                assert(line.take(k) =~= text@.subrange(pos as int, eq as int));
                assert(line.skip(k + 1) =~= text@.subrange(eq + 1, end as int));
            }
            found.push(Entry { ident, value });
            proof {
                let e = (ident@, value@);
                assert(entry_of(line) == Some(e));
                assert(entry_views(found@) =~= before + seq![e]);
                assert(entries(rest) == seq![e] + entries(text@.skip(next as int)));
                assert(before + (seq![e] + entries(text@.skip(next as int))) =~= (before + seq![e])
                    + entries(text@.skip(next as int)));
            }
        } else {
            proof {
                assert(entry_of(line) is None);
                assert(entries(rest) == entries(text@.skip(next as int)));
            }
        }
        pos = next;
    }
    proof {
        assert(text@.skip(pos as int) =~= Seq::<char>::empty());
        assert(entry_views(found@) + Seq::<(Seq<char>, Seq<char>)>::empty() =~= entry_views(
            found@,
        ));
    }
    found
}

} // verus!
