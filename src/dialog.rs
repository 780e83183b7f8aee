use vstd::prelude::*;
use vstd::string::StrSliceExecFns;
use indexmap::IndexMap;

verus! {

/// Whether `c` is white space in the sense of Unicode's `White_Space`
/// property, which is what `char::is_whitespace` tests.
pub open spec fn is_whitespace(c: char) -> bool {
    ('\t' <= c && c <= '\r') || c == ' ' || c == '\u{85}' || c == '\u{a0}' || c == '\u{1680}'
        || ('\u{2000}' <= c && c <= '\u{200a}') || c == '\u{2028}' || c == '\u{2029}'
        || c == '\u{202f}' || c == '\u{205f}' || c == '\u{3000}'
}

/// `s` without its leading white space.
pub open spec fn trim_start(s: Seq<char>) -> Seq<char>
    decreases s.len(),
{
    if s.len() > 0 && is_whitespace(s[0]) {
        trim_start(s.drop_first())
    } else {
        s
    }
}

/// A character that counts as one level of indentation.
pub open spec fn is_indent(c: char) -> bool {
    c == '\t' || c == ' '
}

/// `s` without up to `n` leading indentation characters.
pub open spec fn strip_indent(s: Seq<char>, n: nat) -> Seq<char>
    decreases n,
{
    if n > 0 && s.len() > 0 && is_indent(s[0]) {
        strip_indent(s.drop_first(), (n - 1) as nat)
    } else {
        s
    }
}

/// `s` with each escaped hash `\#` replaced by a plain `#`.
pub open spec fn unescape_hash(s: Seq<char>) -> Seq<char>
    decreases s.len(),
{
    if s.len() == 0 {
        s
    } else if s.len() >= 2 && s[0] == '\\' && s[1] == '#' {
        seq!['#'] + unescape_hash(s.skip(2))
    } else {
        seq![s[0]] + unescape_hash(s.drop_first())
    }
}

/// The number of characters before the first line feed of `s`.
pub open spec fn line_len(s: Seq<char>) -> nat
    decreases s.len(),
{
    if s.len() == 0 || s[0] == '\n' {
        0
    } else {
        1 + line_len(s.drop_first())
    }
}

/// The first line of `s`: up to its first line feed, without the carriage
/// return of a `\r\n` ending.
pub open spec fn first_line(s: Seq<char>) -> Seq<char> {
    let raw = s.take(line_len(s) as int);
    if line_len(s) < s.len() && raw.len() > 0 && raw.last() == '\r' {
        raw.drop_last()
    } else {
        raw
    }
}

/// What follows the first line of `s` and its line feed.
pub open spec fn after_first_line(s: Seq<char>) -> Seq<char> {
    if line_len(s) < s.len() {
        s.skip(line_len(s) + 1 as int)
    } else {
        Seq::empty()
    }
}

/// Each line of `s`, stripped of `n` levels of indentation and unescaped,
/// followed by a line feed.
pub open spec fn unindented_lines(s: Seq<char>, n: nat) -> Seq<char>
    decreases s.len(),
{
    if s.len() == 0 {
        s
    } else {
        unescape_hash(strip_indent(first_line(s), n)) + seq!['\n'] + unindented_lines(
            after_first_line(s),
            n,
        )
    }
}

/// `s` without one leading line break (`\r\n` or `\n`).
pub open spec fn skip_line_break(s: Seq<char>) -> Seq<char> {
    if s.len() > 0 && s[0] == '\r' {
        s.skip(if s.len() < 2 { s.len() as int } else { 2 })
    } else if s.len() > 0 && s[0] == '\n' {
        s.skip(1)
    } else {
        s
    }
}

/// The text of an entry indented by `n` levels once the indentation is taken
/// away. A value that holds no hash and is either unindented or a single line
/// keeps its text, less a leading line break and the indentation; any other
/// value is rebuilt line by line, with escaped hashes restored.
pub open spec fn unindented(s: Seq<char>, n: nat) -> Seq<char> {
    if (n == 0 || after_first_line(trim_start(s)).len() == 0) && !s.contains('#') {
        strip_indent(skip_line_break(s), n)
    } else {
        unindented_lines(trim_start(s), n)
    }
}

/// `indexmap::IndexMap`, opaque: what a dialog's map holds is `dialog_records`.
#[verifier::external_type_specification]
#[verifier::external_body]
#[verifier::reject_recursive_types(K)]
#[verifier::reject_recursive_types(V)]
#[verifier::reject_recursive_types(S)]
pub struct ExIndexMap<K, V, S>(IndexMap<K, V, S>);

/// An entry of a dialog as plain values: its key, its indented text and its
/// level.
pub type EntryRecord = (Seq<char>, Seq<char>, usize);

/// What a dialog's map holds, in the order its keys were first inserted.
pub uninterp spec fn dialog_records(m: IndexMap<&str, DialogEntry>) -> Seq<EntryRecord>;

pub open spec fn record_of(k: &str, e: DialogEntry) -> EntryRecord {
    (k@, e.indented_str@, e.level)
}

pub open spec fn keys_distinct(s: Seq<EntryRecord>) -> bool {
    forall|i: int, j: int| 0 <= i < j < s.len() ==> s[i].0 != s[j].0
}

pub open spec fn has_key(s: Seq<EntryRecord>, k: Seq<char>) -> bool {
    exists|i: int| 0 <= i < s.len() && s[i].0 == k
}

/// The place of key `k` in `s`, where it stands there.
pub open spec fn key_index(s: Seq<EntryRecord>, k: Seq<char>) -> int {
    choose|i: int| 0 <= i < s.len() && s[i].0 == k
}

/// Relies on `IndexMap::new`: the map is empty.
#[verifier::external_body]
fn map_new<'a>() -> (m: IndexMap<&'a str, DialogEntry<'a>>)
    ensures
        dialog_records(m) == Seq::<EntryRecord>::empty(),
{
    IndexMap::new()
}

/// Relies on `IndexMap::insert`: a key already present keeps its place and
/// takes the new entry, and the old entry is returned; a new key goes last.
#[verifier::external_body]
fn map_insert<'a>(m: &mut IndexMap<&'a str, DialogEntry<'a>>, k: &'a str, e: DialogEntry<'a>) -> (r:
    Option<DialogEntry<'a>>)
    requires
        keys_distinct(dialog_records(*old(m))),
    ensures
        keys_distinct(dialog_records(*final(m))),
        has_key(dialog_records(*old(m)), k@) ==> {
            let i = key_index(dialog_records(*old(m)), k@);
            &&& dialog_records(*final(m)) == dialog_records(*old(m)).update(i, record_of(k, e))
            &&& match r {
                Some(x) => x.indented_str@ == dialog_records(*old(m))[i].1 && x.level
                    == dialog_records(*old(m))[i].2,
                None => false,
            }
        },
        !has_key(dialog_records(*old(m)), k@) ==> dialog_records(*final(m)) == dialog_records(
            *old(m),
        ).push(record_of(k, e)) && r is None,
{
    m.insert(k, e)
}

/// Relies on `IndexMap::iter`: the entries in the map's order.
#[verifier::external_body]
fn map_entries<'a>(m: &IndexMap<&'a str, DialogEntry<'a>>) -> (r: Vec<(&'a str, DialogEntry<'a>)>)
    ensures
        r@.len() == dialog_records(*m).len(),
        forall|i: int|
            0 <= i < r@.len() ==> record_of(#[trigger] r@[i].0, r@[i].1) == dialog_records(*m)[i],
{
    m.iter().map(|(k, e)| (*k, *e)).collect()
}

/// The entries of a dialog file by key, in the order of the file.
pub struct Dialog<'a>(pub IndexMap<&'a str, DialogEntry<'a>>);

impl<'a> Dialog<'a> {
    /// The dialog's entries as plain values.
    pub open spec fn records(&self) -> Seq<EntryRecord> {
        dialog_records(self.0)
    }

    /// No key stands twice.
    pub open spec fn wf(&self) -> bool {
        keys_distinct(self.records())
    }

    pub fn new() -> (d: Dialog<'a>)
        ensures
            d.wf(),
            d.records() == Seq::<EntryRecord>::empty(),
    {
        Dialog(map_new())
    }

    /// Sets the entry of a key. A key already present keeps its place, and
    /// its old entry is returned under the key given; a new key goes last.
    pub fn insert(&mut self, key: DialogKey<'a>) -> (r: Option<DialogKey<'a>>)
        requires
            old(self).wf(),
        ensures
            final(self).wf(),
            has_key(old(self).records(), key.0@) ==> {
                let i = key_index(old(self).records(), key.0@);
                &&& final(self).records() == old(self).records().update(i, record_of(key.0, key.1))
                &&& match r {
                    Some(x) => x.0@ == key.0@ && x.1.indented_str@ == old(self).records()[i].1
                        && x.1.level == old(self).records()[i].2,
                    None => false,
                }
            },
            !has_key(old(self).records(), key.0@) ==> final(self).records() == old(
                self,
            ).records().push(record_of(key.0, key.1)) && r is None,
    {
        let DialogKey(name, entry) = key;
        match map_insert(&mut self.0, name, entry) {
            Some(e) => Some(DialogKey(name, e)),
            None => None,
        }
    }

    /// The entries with their keys, in order.
    pub fn iter(&self) -> (r: Vec<DialogKey<'a>>)
        ensures
            r@.len() == self.records().len(),
            forall|i: int|
                0 <= i < r@.len() ==> record_of(#[trigger] r@[i].0, r@[i].1) == self.records()[i],
    {
        let entries = map_entries(&self.0);
        let mut out: Vec<DialogKey<'a>> = Vec::new();
        let mut i: usize = 0;
        while i < entries.len()
            invariant
                i <= entries@.len(),
                out@.len() == i,
                entries@.len() == self.records().len(),
                forall|j: int|
                    0 <= j < entries@.len() ==> record_of(#[trigger] entries@[j].0, entries@[j].1)
                        == self.records()[j],
                forall|j: int|
                    0 <= j < i ==> record_of(#[trigger] out@[j].0, out@[j].1) == self.records()[j],
            decreases entries@.len() - i,
        {
            let (k, e) = entries[i];
            out.push(DialogKey(k, e));
            i = i + 1;
        }
        out
    }
}

impl<'a> Default for Dialog<'a> {
    fn default() -> (d: Dialog<'a>)
        ensures
            d.wf(),
            d.records() == Seq::<EntryRecord>::empty(),
    {
        Dialog::new()
    }
}

/// One entry of a dialog file with its key.
#[derive(PartialEq, Eq, PartialOrd, Ord, Hash, Debug)]
pub struct DialogKey<'a>(pub &'a str, pub DialogEntry<'a>);

/// The value of a dialog entry as it stands in the file, and the indentation
/// level of its continuation lines.
#[derive(PartialEq, Eq, PartialOrd, Ord, Hash, Debug, Clone, Copy)]
pub struct DialogEntry<'a> {
    pub indented_str: &'a str,
    pub level: usize,
}

/// Relies on `String`'s `FromIterator<&char>`: the string holds the
/// characters in order.
#[verifier::external_body]
fn string_of_chars(v: &Vec<char>) -> (r: String)
    ensures
        r@ == v@,
{
    String::from_iter(v.iter())
}

/// The index of the first character of `s` that is not white space.
fn trim_start_index(s: &str) -> (i: usize)
    ensures
        i <= s@.len(),
        s@.skip(i as int) == trim_start(s@),
{
    let len = s.unicode_len();
    let mut i: usize = 0;
    assert(s@.skip(0) =~= s@);
    while i < len
        invariant
            len == s@.len(),
            i <= len,
            trim_start(s@.skip(i as int)) == trim_start(s@),
        decreases len - i,
    {
        let c = s.get_char(i);
        if !is_whitespace_char(c) {
            return i;
        }
        assert(s@.skip(i as int).drop_first() =~= s@.skip(i + 1));
        i = i + 1;
    }
    assert(s@.skip(i as int) =~= Seq::<char>::empty());
    i
}

fn is_whitespace_char(c: char) -> (r: bool)
    ensures
        r == is_whitespace(c),
{
    ('\t' <= c && c <= '\r') || c == ' ' || c == '\u{85}' || c == '\u{a0}' || c == '\u{1680}'
        || ('\u{2000}' <= c && c <= '\u{200a}') || c == '\u{2028}' || c == '\u{2029}'
        || c == '\u{202f}' || c == '\u{205f}' || c == '\u{3000}'
}

fn contains_char(s: &str, c: char) -> (r: bool)
    ensures
        r == s@.contains(c),
{
    let len = s.unicode_len();
    let mut i: usize = 0;
    while i < len
        invariant
            len == s@.len(),
            i <= len,
            forall|j: int| 0 <= j < i ==> s@[j] != c,
        decreases len - i,
    {
        if s.get_char(i) == c {
            return true;
        }
        i = i + 1;
    }
    false
}

/// The index at which the indentation of `s[a..b]` ends.
fn indent_end(s: &str, a: usize, b: usize, n: usize) -> (k: usize)
    requires
        a <= b <= s@.len(),
    ensures
        a <= k <= b,
        s@.subrange(k as int, b as int) == strip_indent(s@.subrange(a as int, b as int), n as nat),
{
    let mut k: usize = a;
    while k < b && k - a < n
        invariant
            a <= k <= b <= s@.len(),
            k - a <= n,
            strip_indent(s@.subrange(k as int, b as int), (n - (k - a)) as nat) == strip_indent(
                s@.subrange(a as int, b as int),
                n as nat,
            ),
        decreases b - k,
    {
        let c = s.get_char(k);
        if !(c == '\t' || c == ' ') {
            return k;
        }
        assert(s@.subrange(k as int, b as int).drop_first() =~= s@.subrange(k + 1, b as int));
        k = k + 1;
    }
    k
}

/// Appends `s[a..b]` to `out` with escaped hashes restored.
fn push_unescaped(s: &str, a: usize, b: usize, out: &mut Vec<char>)
    requires
        a <= b <= s@.len(),
    ensures
        final(out)@ == old(out)@ + unescape_hash(s@.subrange(a as int, b as int)),
{
    let mut i: usize = a;
    while i < b
        invariant
            a <= i <= b <= s@.len(),
            old(out)@ + unescape_hash(s@.subrange(a as int, b as int)) == out@ + unescape_hash(
                s@.subrange(i as int, b as int),
            ),
        decreases b - i,
    {
        let ghost rest = s@.subrange(i as int, b as int);
        let c = s.get_char(i);
        if c == '\\' && i + 1 < b && s.get_char(i + 1) == '#' {
            out.push('#');
            assert(rest.skip(2) =~= s@.subrange(i + 2, b as int));
            i = i + 2;
        } else {
            out.push(c);
            assert(rest.drop_first() =~= s@.subrange(i + 1, b as int));
            i = i + 1;
        }
    }
    assert(s@.subrange(i as int, b as int) =~= Seq::<char>::empty());
    assert(out@ + Seq::<char>::empty() =~= out@);
}

/// The index of the first line feed at or after `p`, or the length of `s`.
fn line_end(s: &str, p: usize) -> (e: usize)
    requires
        p <= s@.len(),
    ensures
        p <= e <= s@.len(),
        e - p == line_len(s@.skip(p as int)),
        e < s@.len() ==> s@[e as int] == '\n',
{
    let len = s.unicode_len();
    let mut e: usize = p;
    while e < len && s.get_char(e) != '\n'
        invariant
            len == s@.len(),
            p <= e <= len,
            line_len(s@.skip(p as int)) == (e - p) + line_len(s@.skip(e as int)),
        decreases len - e,
    {
        assert(s@.skip(e as int).drop_first() =~= s@.skip(e + 1));
        e = e + 1;
    }
    e
}

impl<'a> DialogEntry<'a> {
    /// The entry's text without its indentation (see `unindented`).
    pub fn unindent(&self) -> (r: String)
        ensures
            r@ == unindented(self.indented_str@, self.level as nat),
    {
        let s = self.indented_str;
        let n = self.level;
        let len = s.unicode_len();
        let t0 = trim_start_index(s);
        let has_hash = contains_char(s, '#');
        let e0 = line_end(s, t0);
        let single = e0 >= len || e0 + 1 == len;
        proof {
            let t = s@.skip(t0 as int);
            if line_len(t) < t.len() {
                assert(after_first_line(t).len() == t.len() - line_len(t) - 1);
            }
        }
        if (n == 0 || single) && !has_hash {
            let start: usize = if len > 0 && s.get_char(0) == '\r' {
                if len < 2 { len } else { 2 }
            } else if len > 0 && s.get_char(0) == '\n' {
                1
            } else {
                0
            };
            assert(s@.subrange(start as int, len as int) =~= skip_line_break(s@));
            let k = indent_end(s, start, len, n);
            return s.substring_char(k, len).to_owned();
        }
        let mut out: Vec<char> = Vec::new();
        let mut p: usize = t0;
        while p < len
            invariant
                len == s@.len(),
                t0 <= p <= len,
                unindented_lines(trim_start(s@), n as nat) == out@ + unindented_lines(
                    s@.skip(p as int),
                    n as nat,
                ),
            decreases len - p,
        {
            let ghost rest = s@.skip(p as int);
            let ghost out0 = out@;
            let e = line_end(s, p);
            let b: usize = if e < len && e > p && s.get_char(e - 1) == '\r' {
                e - 1
            } else {
                e
            };
            assert(first_line(rest) =~= s@.subrange(p as int, b as int));
            let k = indent_end(s, p, b, n);
            push_unescaped(s, k, b, &mut out);
            out.push('\n');
            let next: usize = if e < len { e + 1 } else { len };
            assert(after_first_line(rest) =~= s@.skip(next as int));
            assert(out@ =~= out0 + unescape_hash(strip_indent(first_line(rest), n as nat))
                + seq!['\n']);
            assert(out0 + unindented_lines(rest, n as nat) =~= out@ + unindented_lines(
                s@.skip(next as int),
                n as nat,
            ));
            p = next;
        }
        assert(s@.skip(p as int) =~= Seq::<char>::empty());
        assert(out@ + Seq::<char>::empty() =~= out@);
        string_of_chars(&out)
    }
}

} // verus!
