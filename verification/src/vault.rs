//! The encrypted secret vault.
//!
//! Secrets (seed phrases keyed by wallet name) are serialized one
//! `name<TAB>secret` pair per line, with literal tab and newline
//! characters escaped so they round-trip. The plaintext is sealed with
//! an authenticated cipher under a key derived from the passphrase by a
//! memory-hard hash, framed as `MAGIC ‖ SALT ‖ NONCE ‖ CIPHERTEXT`, and
//! the whole blob is base64-encoded. The vault keeps the encoded blob
//! in memory; reading and writing the vault file is the caller's
//! concern. Every write uses a fresh random salt and nonce.

use vstd::prelude::*;
use vstd::utf8::encode_utf8;
use crate::strutil::{str_chars, push_char, join_spec, join_strings, lemma_map_values_push};
use chacha20poly1305::{XChaCha20Poly1305, Key, XNonce};
use chacha20poly1305::aead::{Aead, KeyInit};
use base64::Engine;

verus! {

/// One stored secret: a seed phrase under a wallet name.
#[derive(Debug)]
pub struct VaultEntry {
    pub name: String,
    pub secret: String,
}

/// Escaping used before a name or secret is written: a literal tab
/// becomes `\t` and a literal newline `\n`.
pub open spec fn escape_spec(s: Seq<char>) -> Seq<char>
    decreases s.len(),
{
    if s.len() == 0 {
        s
    } else {
        (if s[0] == '\t' {
            seq!['\\', 't']
        } else if s[0] == '\n' {
            seq!['\\', 'n']
        } else {
            seq![s[0]]
        }) + escape_spec(s.drop_first())
    }
}

/// The inverse reading: `\t` and `\n` become the literal characters;
/// any other character, a lone trailing backslash included, stands for
/// itself.
pub open spec fn unescape_spec(s: Seq<char>) -> Seq<char>
    decreases s.len(),
{
    if s.len() == 0 {
        s
    } else if s[0] == '\\' && s.len() >= 2 && (s[1] == 't' || s[1] == 'n') {
        seq![
            if s[1] == 't' {
                '\t'
            } else {
                '\n'
            },
        ] + unescape_spec(s.skip(2))
    } else {
        seq![s[0]] + unescape_spec(s.drop_first())
    }
}

/// No backslash anywhere: the precondition under which escaping
/// round-trips exactly.
pub open spec fn backslash_free(s: Seq<char>) -> bool {
    forall|i: int| 0 <= i < s.len() ==> s[i] != '\\'
}

/// Escaping leaves no tabs, newlines or lone escape heads behind except
/// the two-character forms.
proof fn lemma_escape_no_raw(s: Seq<char>)
    requires
        backslash_free(s),
    ensures
        forall|i: int| 0 <= i < escape_spec(s).len() ==> #[trigger] escape_spec(s)[i] != '\t'
            && escape_spec(s)[i] != '\n',
    decreases s.len(),
{
    if s.len() > 0 {
        assert(s.drop_first().len() == s.len() - 1);
        assert forall|i: int| 0 <= i < s.drop_first().len() implies s.drop_first()[i] != '\\' by {
            assert(s.drop_first()[i] == s[i + 1]);
        }
        lemma_escape_no_raw(s.drop_first());
        let head: Seq<char> = if s[0] == '\t' {
            seq!['\\', 't']
        } else if s[0] == '\n' {
            seq!['\\', 'n']
        } else {
            seq![s[0]]
        };
        assert forall|i: int| 0 <= i < escape_spec(s).len() implies #[trigger] escape_spec(s)[i]
            != '\t' && escape_spec(s)[i] != '\n' by {
            if i < head.len() {
                assert(escape_spec(s)[i] == head[i]);
            } else {
                assert(escape_spec(s)[i] == escape_spec(s.drop_first())[i - head.len()]);
            }
        }
    }
}

/// Unescaping undoes escaping on backslash-free input.
pub proof fn lemma_unescape_escape(s: Seq<char>)
    requires
        backslash_free(s),
    ensures
        unescape_spec(escape_spec(s)) == s,
    decreases s.len(),
{
    if s.len() > 0 {
        assert forall|i: int| 0 <= i < s.drop_first().len() implies s.drop_first()[i] != '\\' by {
            assert(s.drop_first()[i] == s[i + 1]);
        }
        lemma_unescape_escape(s.drop_first());
        let e = escape_spec(s);
        let rest = escape_spec(s.drop_first());
        if s[0] == '\t' {
            assert(e =~= seq!['\\', 't'] + rest);
            assert(e[0] == '\\' && e[1] == 't');
            assert(e.skip(2) =~= rest);
            assert(unescape_spec(e) =~= seq!['\t'] + s.drop_first());
            assert(seq!['\t'] + s.drop_first() =~= s);
        } else if s[0] == '\n' {
            assert(e =~= seq!['\\', 'n'] + rest);
            assert(e[0] == '\\' && e[1] == 'n');
            assert(e.skip(2) =~= rest);
            assert(unescape_spec(e) =~= seq!['\n'] + s.drop_first());
            assert(seq!['\n'] + s.drop_first() =~= s);
        } else {
            assert(e =~= seq![s[0]] + rest);
            assert(e[0] == s[0]);
            assert(s[0] != '\\');
            if e.len() >= 2 {
                assert(!(e[0] == '\\' && (e[1] == 't' || e[1] == 'n')));
            }
            assert(e.drop_first() =~= rest);
            assert(unescape_spec(e) =~= seq![s[0]] + s.drop_first());
            assert(seq![s[0]] + s.drop_first() =~= s);
        }
    }
}

/// Escapes a string for the vault's line format.
pub fn escape_text(s: &str) -> (r: String)
    ensures
        r@ == escape_spec(s@),
{
    let v = str_chars(s);
    let n = v.len();
    let mut out = String::new();
    let mut i: usize = 0;
    proof {
        assert(s@.skip(0) == s@);
    }
    while i < n
        invariant
            v@ == s@,
            n == s@.len(),
            i <= n,
            out@ + escape_spec(s@.skip(i as int)) == escape_spec(s@),
        decreases n - i,
    {
        proof {
            assert(s@.skip(i as int)[0] == s@[i as int]);
            assert(s@.skip(i as int).drop_first() =~= s@.skip(i + 1));
        }
        let c = v[i];
        if c == '\t' {
            push_char(&mut out, '\\');
            push_char(&mut out, 't');
        } else if c == '\n' {
            push_char(&mut out, '\\');
            push_char(&mut out, 'n');
        } else {
            push_char(&mut out, c);
        }
        i += 1;
    }
    proof {
        assert(s@.skip(n as int).len() == 0);
    }
    out
}

/// Reads the vault's escaping back.
pub fn unescape_text(s: &str) -> (r: String)
    ensures
        r@ == unescape_spec(s@),
{
    let v = str_chars(s);
    let n = v.len();
    let mut out = String::new();
    let mut i: usize = 0;
    proof {
        assert(s@.skip(0) == s@);
    }
    while i < n
        invariant
            v@ == s@,
            n == s@.len(),
            i <= n,
            out@ + unescape_spec(s@.skip(i as int)) == unescape_spec(s@),
        decreases n - i,
    {
        let ghost rest = s@.skip(i as int);
        proof {
            assert(rest[0] == s@[i as int]);
            assert(rest.drop_first() =~= s@.skip(i + 1));
            if rest.len() >= 2 {
                assert(rest[1] == s@[i + 1]);
                assert(rest.skip(2) =~= s@.skip(i + 2));
            }
        }
        let c = v[i];
        if c == '\\' && i + 1 < n && (v[i + 1] == 't' || v[i + 1] == 'n') {
            push_char(
                &mut out,
                if v[i + 1] == 't' {
                    '\t'
                } else {
                    '\n'
                },
            );
            i += 2;
        } else {
            push_char(&mut out, c);
            i += 1;
        }
    }
    proof {
        assert(s@.skip(n as int).len() == 0);
    }
    out
}

/// The spec-level model of the entries: each as its name and secret
/// character sequences.
pub open spec fn entries_view(entries: Seq<VaultEntry>) -> Seq<(Seq<char>, Seq<char>)> {
    entries.map_values(|e: VaultEntry| (e.name@, e.secret@))
}

/// One serialized entry: escaped name, a tab, escaped secret.
pub open spec fn line_spec(e: (Seq<char>, Seq<char>)) -> Seq<char> {
    escape_spec(e.0) + seq!['\t'] + escape_spec(e.1)
}

/// The vault plaintext: one line per entry, joined with newlines.
pub open spec fn encode_entries_spec(entries: Seq<(Seq<char>, Seq<char>)>) -> Seq<char> {
    join_spec(entries.map_values(|e: (Seq<char>, Seq<char>)| line_spec(e)), seq!['\n'])
}

/// Serializes the entries.
pub fn encode_entries(entries: &Vec<VaultEntry>) -> (r: String)
    ensures
        r@ == encode_entries_spec(entries_view(entries@)),
{
    let mut lines: Vec<String> = Vec::new();
    let mut i: usize = 0;
    while i < entries.len()
        invariant
            i <= entries@.len(),
            lines@.map_values(|p: String| p@) =~= entries_view(entries@.take(i as int)).map_values(
                |e: (Seq<char>, Seq<char>)| line_spec(e),
            ),
        decreases entries@.len() - i,
    {
        let mut line = escape_text(entries[i].name.as_str());
        push_char(&mut line, '\t');
        let sec = escape_text(entries[i].secret.as_str());
        line.append(sec.as_str());
        proof {
            assert(line@ =~= line_spec((entries@[i as int].name@, entries@[i as int].secret@)));
        }
        let ghost prevl = lines@;
        lines.push(line);
        proof {
            assert(entries@.take(i + 1) =~= entries@.take(i as int).push(entries@[i as int]));
            assert(lines@ =~= prevl.push(lines@.last()));
            lemma_map_values_push(prevl, lines@.last(), |p: String| p@);
            lemma_map_values_push(
                entries@.take(i as int),
                entries@[i as int],
                |e: VaultEntry| (e.name@, e.secret@),
            );
            lemma_map_values_push(
                entries_view(entries@.take(i as int)),
                (entries@[i as int].name@, entries@[i as int].secret@),
                |e: (Seq<char>, Seq<char>)| line_spec(e),
            );
            assert(lines@.map_values(|p: String| p@) =~= entries_view(
                entries@.take(i + 1),
            ).map_values(|e: (Seq<char>, Seq<char>)| line_spec(e)));
        }
        i += 1;
    }
    proof {
        assert(entries@.take(entries@.len() as int) =~= entries@);
    }
    let mut sep = String::new();
    push_char(&mut sep, '\n');
    let r = join_strings(&lines, sep.as_str());
    r
}

/// The position of the first `c` in `s`, or the length when absent.
pub open spec fn upto_char(s: Seq<char>, c: char) -> nat
    decreases s.len(),
{
    if s.len() == 0 || s[0] == c {
        0
    } else {
        1 + upto_char(s.drop_first(), c)
    }
}

proof fn lemma_upto_char(s: Seq<char>, c: char, k: int)
    requires
        0 <= k <= s.len(),
        forall|j: int| 0 <= j < k ==> s[j] != c,
        k < s.len() ==> s[k] == c,
    ensures
        upto_char(s, c) == k,
    decreases k,
{
    if k > 0 {
        assert(s[0] != c);
        assert(s.drop_first() == s.skip(1));
        assert forall|j: int| 0 <= j < k - 1 implies s.skip(1)[j] != c by {
            assert(s.skip(1)[j] == s[j + 1]);
        }
        if k - 1 < s.skip(1).len() {
            assert(s.skip(1)[k - 1] == s[k]);
        }
        lemma_upto_char(s.skip(1), c, k - 1);
    }
}

proof fn lemma_upto_char_le(s: Seq<char>, c: char)
    ensures
        upto_char(s, c) <= s.len(),
    decreases s.len(),
{
    if s.len() > 0 && s[0] != c {
        lemma_upto_char_le(s.drop_first(), c);
    }
}

/// The entry a line denotes: split at the first tab, both halves read
/// back through the escaping; a line without a tab denotes nothing.
pub open spec fn parse_line_spec(line: Seq<char>) -> Option<(Seq<char>, Seq<char>)> {
    let t = upto_char(line, '\t');
    if t == line.len() {
        None
    } else {
        Some((unescape_spec(line.take(t as int)), unescape_spec(line.skip(t as int + 1))))
    }
}

/// The lines of `s`, split on newlines (consecutive newlines give empty
/// segments).
pub open spec fn split_lines(s: Seq<char>) -> Seq<Seq<char>>
    decreases s.len(),
    via split_lines_decreases
{
    let p = upto_char(s, '\n');
    if p == s.len() {
        seq![s]
    } else {
        seq![s.take(p as int)] + split_lines(s.skip(p as int + 1))
    }
}

#[via_fn]
proof fn split_lines_decreases(s: Seq<char>) {
    lemma_upto_char_le(s, '\n');
}

/// The entries a vault plaintext denotes: each line with a tab becomes
/// one entry, in order.
pub open spec fn parse_entries_spec(s: Seq<char>) -> Seq<(Seq<char>, Seq<char>)> {
    if s.len() == 0 {
        Seq::empty()
    } else {
        parse_segments(split_lines(s))
    }
}

/// The entries of a sequence of lines.
pub open spec fn parse_segments(lines: Seq<Seq<char>>) -> Seq<(Seq<char>, Seq<char>)>
    decreases lines.len(),
{
    if lines.len() == 0 {
        Seq::empty()
    } else {
        (match parse_line_spec(lines[0]) {
            Some(e) => seq![e],
            None => Seq::empty(),
        }) + parse_segments(lines.drop_first())
    }
}

proof fn lemma_line_no_newline(e: (Seq<char>, Seq<char>))
    requires
        backslash_free(e.0),
        backslash_free(e.1),
    ensures
        forall|i: int| 0 <= i < line_spec(e).len() ==> #[trigger] line_spec(e)[i] != '\n',
{
    lemma_escape_no_raw(e.0);
    lemma_escape_no_raw(e.1);
    let a = escape_spec(e.0);
    let b = escape_spec(e.1);
    assert forall|i: int| 0 <= i < line_spec(e).len() implies #[trigger] line_spec(e)[i]
        != '\n' by {
        if i < a.len() {
            assert(line_spec(e)[i] == a[i]);
        } else if i == a.len() {
            assert(line_spec(e)[i] == '\t');
        } else {
            assert(line_spec(e)[i] == b[i - a.len() - 1]);
        }
    }
}

proof fn lemma_parse_line(e: (Seq<char>, Seq<char>))
    requires
        backslash_free(e.0),
        backslash_free(e.1),
    ensures
        parse_line_spec(line_spec(e)) == Some(e),
{
    lemma_escape_no_raw(e.0);
    let a = escape_spec(e.0);
    let b = escape_spec(e.1);
    let l = line_spec(e);
    assert forall|j: int| 0 <= j < a.len() implies l[j] != '\t' by {
        assert(l[j] == a[j]);
    }
    assert(l[a.len() as int] == '\t');
    lemma_upto_char(l, '\t', a.len() as int);
    assert(l.take(a.len() as int) =~= a);
    assert(l.skip(a.len() as int + 1) =~= b);
    lemma_unescape_escape(e.0);
    lemma_unescape_escape(e.1);
}

proof fn lemma_split_lines_join(lines: Seq<Seq<char>>)
    requires
        lines.len() >= 1,
        forall|i: int, j: int|
            0 <= i < lines.len() && 0 <= j < lines[i].len() ==> #[trigger] lines[i][j] != '\n',
    ensures
        split_lines(join_spec(lines, seq!['\n'])) == lines,
    decreases lines.len(),
{
    let s = join_spec(lines, seq!['\n']);
    if lines.len() == 1 {
        assert(s == lines[0]);
        assert(forall|j: int| 0 <= j < s.len() ==> s[j] != '\n');
        lemma_upto_char(s, '\n', s.len() as int);
        assert(split_lines(s) =~= lines);
    } else {
        let rest = join_spec(lines.drop_first(), seq!['\n']);
        assert(s == lines[0] + seq!['\n'] + rest);
        assert forall|j: int| 0 <= j < lines[0].len() implies s[j] != '\n' by {
            assert(s[j] == lines[0][j]);
        }
        assert(s[lines[0].len() as int] == '\n');
        lemma_upto_char(s, '\n', lines[0].len() as int);
        assert(s.take(lines[0].len() as int) =~= lines[0]);
        assert(s.skip(lines[0].len() as int + 1) =~= rest);
        assert forall|i: int, j: int|
            0 <= i < lines.drop_first().len() && 0 <= j < lines.drop_first()[i].len() implies #[trigger] lines.drop_first()[i][j]
            != '\n' by {
            assert(lines.drop_first()[i] == lines[i + 1]);
        }
        lemma_split_lines_join(lines.drop_first());
        assert(split_lines(s) =~= seq![lines[0]] + lines.drop_first());
        assert(seq![lines[0]] + lines.drop_first() =~= lines);
    }
}

proof fn lemma_parse_segments_map(m: Seq<(Seq<char>, Seq<char>)>)
    requires
        forall|i: int|
            0 <= i < m.len() ==> backslash_free((#[trigger] m[i]).0) && backslash_free(m[i].1),
    ensures
        parse_segments(m.map_values(|e: (Seq<char>, Seq<char>)| line_spec(e))) == m,
    decreases m.len(),
{
    let lines = m.map_values(|e: (Seq<char>, Seq<char>)| line_spec(e));
    if m.len() == 0 {
        assert(parse_segments(lines) =~= m);
    } else {
        assert(lines[0] == line_spec(m[0]));
        lemma_parse_line(m[0]);
        assert forall|i: int|
            0 <= i < m.drop_first().len() implies backslash_free(
            (#[trigger] m.drop_first()[i]).0,
        ) && backslash_free(m.drop_first()[i].1) by {
            assert(m.drop_first()[i] == m[i + 1]);
        }
        lemma_parse_segments_map(m.drop_first());
        assert(lines.drop_first() =~= m.drop_first().map_values(
            |e: (Seq<char>, Seq<char>)| line_spec(e),
        ));
        assert(parse_segments(lines) =~= seq![m[0]] + m.drop_first());
        assert(seq![m[0]] + m.drop_first() =~= m);
    }
}

/// Serializing entries and parsing the result gives the entries back,
/// exactly and in order, for names and secrets free of backslashes
/// (tabs and newlines in them are fine: the escaping covers those).
pub proof fn lemma_entries_round_trip(m: Seq<(Seq<char>, Seq<char>)>)
    requires
        forall|i: int|
            0 <= i < m.len() ==> backslash_free((#[trigger] m[i]).0) && backslash_free(m[i].1),
    ensures
        parse_entries_spec(encode_entries_spec(m)) == m,
{
    let lines = m.map_values(|e: (Seq<char>, Seq<char>)| line_spec(e));
    let s = encode_entries_spec(m);
    if m.len() == 0 {
        assert(s.len() == 0);
        assert(parse_entries_spec(s) =~= m);
    } else {
        assert forall|i: int, j: int|
            0 <= i < lines.len() && 0 <= j < lines[i].len() implies #[trigger] lines[i][j]
            != '\n' by {
            assert(lines[i] == line_spec(m[i]));
            lemma_line_no_newline(m[i]);
        }
        lemma_split_lines_join(lines);
        lemma_parse_segments_map(m);
        assert(s.len() > 0) by {
            assert(lines[0] == line_spec(m[0]));
            assert(line_spec(m[0]).len() >= 1);
            if lines.len() == 1 {
                assert(s == lines[0]);
            } else {
                assert(s == lines[0] + seq!['\n'] + join_spec(lines.drop_first(), seq!['\n']));
            }
        }
    }
}

fn chars_range_string(v: &Vec<char>, a: usize, b: usize) -> (r: String)
    requires
        a <= b <= v@.len(),
    ensures
        r@ == v@.subrange(a as int, b as int),
{
    let mut r = String::new();
    let mut i: usize = a;
    while i < b
        invariant
            a <= i <= b <= v@.len(),
            r@ == v@.subrange(a as int, i as int),
        decreases b - i,
    {
        push_char(&mut r, v[i]);
        proof {
            assert(v@.subrange(a as int, i + 1) =~= v@.subrange(a as int, i as int).push(
                v@[i as int],
            ));
        }
        i += 1;
    }
    r
}

/// Parses a vault plaintext back into entries.
pub fn parse_entries(s: &str) -> (r: Vec<VaultEntry>)
    ensures
        entries_view(r@) == parse_entries_spec(s@),
{
    let v = str_chars(s);
    let n = v.len();
    let mut out: Vec<VaultEntry> = Vec::new();
    if n == 0 {
        proof {
            assert(entries_view(out@) =~= Seq::<(Seq<char>, Seq<char>)>::empty());
        }
        return out;
    }
    let mut i: usize = 0;
    proof {
        assert(s@.skip(0) == s@);
        assert(entries_view(out@) =~= Seq::<(Seq<char>, Seq<char>)>::empty());
        assert(entries_view(out@) + parse_segments(split_lines(s@)) =~= parse_segments(
            split_lines(s@),
        ));
    }
    loop
        invariant_except_break
            v@ == s@,
            n == s@.len(),
            n > 0,
            i <= n,
            entries_view(out@) + parse_segments(split_lines(s@.skip(i as int)))
                == parse_entries_spec(s@),
        ensures
            entries_view(out@) == parse_entries_spec(s@),
        decreases n - i,
    {
        let ghost out0 = out@;
        let ghost seg = s@.skip(i as int);
        let mut j: usize = i;
        while j < n && v[j] != '\n'
            invariant
                v@ == s@,
                n == s@.len(),
                i <= j <= n,
                forall|k: int| i <= k < j ==> s@[k] != '\n',
            decreases n - j,
        {
            j += 1;
        }
        let ghost line = seg.take(j - i);
        proof {
            assert forall|k: int| 0 <= k < j - i implies seg[k] != '\n' by {
                assert(seg[k] == s@[i + k]);
            }
            if j < n {
                assert(seg[j - i] == s@[j as int]);
            }
            lemma_upto_char(seg, '\n', j - i);
            if j < n {
                assert(split_lines(seg) == seq![line] + split_lines(seg.skip(j - i + 1)));
                assert(seg.skip(j - i + 1) =~= s@.skip(j + 1));
            } else {
                assert(seg.take(j - i) =~= seg);
                assert(split_lines(seg) == seq![seg]);
            }
        }
        // Parse the line [i, j): split at its first tab, if any.
        let mut t: usize = i;
        while t < j && v[t] != '\t'
            invariant
                v@ == s@,
                n == s@.len(),
                i <= t <= j <= n,
                forall|k: int| i <= k < t ==> s@[k] != '\t',
            decreases j - t,
        {
            t += 1;
        }
        proof {
            assert forall|k: int| 0 <= k < t - i implies line[k] != '\t' by {
                assert(line[k] == s@[i + k]);
            }
            if t < j {
                assert(line[t - i] == s@[t as int]);
            }
            lemma_upto_char(line, '\t', t - i);
        }
        if t < j {
            let name_esc = chars_range_string(&v, i, t);
            let sec_esc = chars_range_string(&v, t + 1, j);
            proof {
                assert(line.take(t - i) =~= s@.subrange(i as int, t as int));
                assert(line.skip(t - i + 1) =~= s@.subrange(t + 1, j as int));
            }
            let name = unescape_text(name_esc.as_str());
            let secret = unescape_text(sec_esc.as_str());
            let ghost prevo = out@;
            out.push(VaultEntry { name, secret });
            proof {
                lemma_map_values_push(
                    prevo,
                    out@.last(),
                    |e: VaultEntry| (e.name@, e.secret@),
                );
                assert((out@.last().name@, out@.last().secret@) == parse_line_spec(
                    line,
                ).unwrap());
                assert(entries_view(out@) =~= entries_view(prevo).push(
                    parse_line_spec(line).unwrap(),
                ));
            }
        }
        proof {
            let sl = split_lines(seg);
            let handled: Seq<(Seq<char>, Seq<char>)> = match parse_line_spec(line) {
                Some(e) => seq![e],
                None => Seq::empty(),
            };
            assert(sl[0] == line);
            assert(parse_segments(sl) == handled + parse_segments(sl.drop_first()));
            if t < j {
                assert(handled =~= seq![parse_line_spec(line).unwrap()]);
                assert(entries_view(out@) =~= entries_view(out0) + handled);
            } else {
                assert(handled =~= Seq::<(Seq<char>, Seq<char>)>::empty());
                assert(entries_view(out@) =~= entries_view(out0) + handled);
            }
        }
        if j < n {
            proof {
                let sl = split_lines(seg);
                let handled: Seq<(Seq<char>, Seq<char>)> = match parse_line_spec(line) {
                    Some(e) => seq![e],
                    None => Seq::empty(),
                };
                assert(sl.drop_first() =~= split_lines(s@.skip(j + 1)));
                assert((entries_view(out0) + handled) + parse_segments(sl.drop_first())
                    =~= entries_view(out0) + (handled + parse_segments(sl.drop_first())));
                assert(entries_view(out@) + parse_segments(split_lines(s@.skip(j + 1)))
                    == parse_entries_spec(s@));
            }
            i = j + 1;
        } else {
            proof {
                let sl = split_lines(seg);
                let handled: Seq<(Seq<char>, Seq<char>)> = match parse_line_spec(line) {
                    Some(e) => seq![e],
                    None => Seq::empty(),
                };
                assert(sl =~= seq![line]);
                assert(sl.drop_first() =~= Seq::<Seq<char>>::empty());
                assert(parse_segments(sl.drop_first()) =~= Seq::<(Seq<char>, Seq<char>)>::empty());
                assert(handled + parse_segments(sl.drop_first()) =~= handled);
                assert(entries_view(out@) == parse_entries_spec(s@));
            }
            break ;
        }
    }
    out
}

/// The vault file's magic header bytes (`79CLOVER`).
pub open spec fn magic() -> Seq<u8> {
    seq![55u8, 57u8, 67u8, 76u8, 79u8, 86u8, 69u8, 82u8]
}

fn magic_bytes() -> (r: Vec<u8>)
    ensures
        r@ == magic(),
{
    let mut r: Vec<u8> = Vec::new();
    r.push(55);
    r.push(57);
    r.push(67);
    r.push(76);
    r.push(79);
    r.push(86);
    r.push(69);
    r.push(82);
    proof {
        assert(r@ =~= magic());
    }
    r
}

/// Salt length of the key derivation, in bytes.
pub const SALT_LEN: usize = 16;

/// Nonce length of the cipher, in bytes.
pub const NONCE_LEN: usize = 24;

/// Default memory cost of the key derivation, in KiB (one GiB).
pub const VAULT_M_COST: u32 = 1048576;

/// Default pass count of the key derivation.
pub const VAULT_T_COST: u32 = 8;

/// The decrypted vault file layout: magic, salt, nonce, ciphertext.
pub open spec fn frame_spec(salt: Seq<u8>, nonce: Seq<u8>, ct: Seq<u8>) -> Seq<u8> {
    magic() + salt + nonce + ct
}

fn extend_bytes(dst: &mut Vec<u8>, src: &Vec<u8>)
    ensures
        final(dst)@ == old(dst)@ + src@,
{
    let ghost orig = dst@;
    let mut i: usize = 0;
    while i < src.len()
        invariant
            i <= src@.len(),
            dst@ == orig + src@.take(i as int),
        decreases src@.len() - i,
    {
        dst.push(src[i]);
        proof {
            assert(orig + src@.take(i + 1) =~= (orig + src@.take(i as int)).push(
                src@[i as int],
            ));
        }
        i += 1;
    }
    proof {
        assert(orig + src@.take(src@.len() as int) =~= orig + src@);
    }
}

fn build_frame(salt: &Vec<u8>, nonce: &Vec<u8>, ct: &Vec<u8>) -> (r: Vec<u8>)
    ensures
        r@ == frame_spec(salt@, nonce@, ct@),
{
    let mut r = magic_bytes();
    extend_bytes(&mut r, salt);
    extend_bytes(&mut r, nonce);
    extend_bytes(&mut r, ct);
    proof {
        assert(r@ =~= frame_spec(salt@, nonce@, ct@));
    }
    r
}

fn bytes_range(v: &Vec<u8>, a: usize, b: usize) -> (r: Vec<u8>)
    requires
        a <= b <= v@.len(),
    ensures
        r@ == v@.subrange(a as int, b as int),
{
    let mut r: Vec<u8> = Vec::new();
    let mut i: usize = a;
    while i < b
        invariant
            a <= i <= b <= v@.len(),
            r@ == v@.subrange(a as int, i as int),
        decreases b - i,
    {
        r.push(v[i]);
        proof {
            assert(v@.subrange(a as int, i + 1) =~= v@.subrange(a as int, i as int).push(
                v@[i as int],
            ));
        }
        i += 1;
    }
    r
}

/// Splits a decoded vault blob into salt, nonce and ciphertext,
/// checking the magic header first.
fn parse_frame(bytes: &Vec<u8>) -> (r: Result<(Vec<u8>, Vec<u8>, Vec<u8>), String>)
    ensures
        match r {
            Ok(p) => {
                &&& bytes@.len() >= 48
                &&& bytes@.take(8) == magic()
                &&& p.0@ == bytes@.subrange(8, 24)
                &&& p.1@ == bytes@.subrange(24, 48)
                &&& p.2@ == bytes@.skip(48)
            },
            Err(e) => {
                ||| bytes@.len() < 8 && e@ == "File too short or corrupted (missing header)"@
                ||| bytes@.len() >= 8 && bytes@.take(8) != magic() && e@
                    == "Invalid file format or wrong version"@
                ||| bytes@.len() >= 8 && bytes@.take(8) == magic() && bytes@.len() < 24 && e@
                    == "File too short or corrupted (missing salt)"@
                ||| bytes@.len() >= 24 && bytes@.take(8) == magic() && bytes@.len() < 48 && e@
                    == "File too short or corrupted (missing nonce)"@
            },
        },
{
    if bytes.len() < 8 {
        return Err(String::from_str("File too short or corrupted (missing header)"));
    }
    let m = magic_bytes();
    let head = bytes_range(bytes, 0, 8);
    let mut k: usize = 0;
    let mut same = true;
    while k < 8
        invariant
            k <= 8,
            head@ == bytes@.take(8),
            m@ == magic(),
            head@.len() == 8,
            m@.len() == 8,
            same == (forall|j: int| 0 <= j < k ==> head@[j] == m@[j]),
        decreases 8 - k,
    {
        if head[k] != m[k] {
            same = false;
        }
        k += 1;
    }
    if !same {
        proof {
            assert(bytes@.take(8) != magic());
        }
        return Err(String::from_str("Invalid file format or wrong version"));
    }
    proof {
        assert(bytes@.take(8) =~= magic());
    }
    if bytes.len() < 24 {
        return Err(String::from_str("File too short or corrupted (missing salt)"));
    }
    if bytes.len() < 48 {
        return Err(String::from_str("File too short or corrupted (missing nonce)"));
    }
    let salt = bytes_range(bytes, 8, 24);
    let nonce = bytes_range(bytes, 24, 48);
    let ct = bytes_range(bytes, 48, bytes.len());
    proof {
        assert(bytes@.subrange(48, bytes@.len() as int) =~= bytes@.skip(48));
    }
    Ok((salt, nonce, ct))
}

/// The key the memory-hard password hash derives from a passphrase,
/// salt and cost parameters (Argon2id, version 19, one lane, 32-byte
/// output): a pure function of its arguments.
pub uninterp spec fn argon2id_key(password: Seq<char>, salt: Seq<u8>, m_cost: u32, t_cost: u32) -> Seq<u8>;

/// The ciphertext (with appended authentication tag) the cipher
/// produces for a key, nonce and message: a pure function of its
/// arguments.
pub uninterp spec fn xchacha_seal(key: Seq<u8>, nonce: Seq<u8>, plaintext: Seq<char>) -> Seq<u8>;

/// The standard base64 rendering of a byte string: a pure function of
/// its argument.
pub uninterp spec fn base64_std(bytes: Seq<u8>) -> Seq<char>;

/// Relies on `getrandom::getrandom`: fills a buffer with entropy from
/// the operating system; nothing is promised of the contents.
#[verifier::external_body]
fn random_bytes(n: usize) -> (r: Result<Vec<u8>, ()>)
    ensures
        r matches Ok(b) ==> b@.len() == n,
{
    let mut buf = vec![0u8; n];
    match getrandom::getrandom(&mut buf) {
        Ok(()) => Ok(buf),
        Err(_) => Err(()),
    }
}

/// Relies on `Argon2::hash_password_into` (Argon2id, version 19, one
/// lane, 32-byte output): under the parameter bounds below it fills the
/// buffer deterministically from passphrase, salt and costs.
#[verifier::external_body]
fn derive_key(password: &str, salt: &Vec<u8>, m_cost: u32, t_cost: u32) -> (r: Vec<u8>)
    requires
        8 <= m_cost,
        1 <= t_cost,
        8 <= salt@.len() <= 64,
        password@.len() < 0x40000000,
    ensures
        r@ == argon2id_key(password@, salt@, m_cost, t_cost),
        r@.len() == 32,
{
    let params = argon2::Params::new(m_cost, t_cost, 1, Some(32)).expect("argon2 parameters");
    let a = argon2::Argon2::new(argon2::Algorithm::Argon2id, argon2::Version::V0x13, params);
    let mut out = [0u8; 32];
    a.hash_password_into(password.as_bytes(), salt.as_slice(), &mut out).expect("argon2");
    out.to_vec()
}

/// Relies on `XChaCha20Poly1305::encrypt`: the sealed message, a pure
/// function of key, nonce and plaintext.
#[verifier::external_body]
fn aead_seal(key: &Vec<u8>, nonce: &Vec<u8>, plaintext: &str) -> (r: Result<Vec<u8>, ()>)
    requires
        key@.len() == 32,
        nonce@.len() == 24,
    ensures
        r matches Ok(c) ==> c@ == xchacha_seal(key@, nonce@, plaintext@),
{
    let cipher = XChaCha20Poly1305::new(Key::from_slice(key.as_slice()));
    let n = XNonce::from_slice(nonce.as_slice());
    cipher.encrypt(n, plaintext.as_bytes()).map_err(|_| ())
}

/// Relies on `XChaCha20Poly1305::decrypt`: authenticated decryption
/// recovers exactly the message that was sealed under the same key and
/// nonce.
#[verifier::external_body]
fn aead_open(key: &Vec<u8>, nonce: &Vec<u8>, ciphertext: &Vec<u8>) -> (r: Option<Vec<u8>>)
    requires
        key@.len() == 32,
        nonce@.len() == 24,
    ensures
        r matches Some(m) ==> forall|pt: Seq<char>|
            ciphertext@ == #[trigger] xchacha_seal(key@, nonce@, pt) ==> m@ == encode_utf8(pt),
        r is None ==> forall|pt: Seq<char>|
            ciphertext@ != #[trigger] xchacha_seal(key@, nonce@, pt),
{
    let cipher = XChaCha20Poly1305::new(Key::from_slice(key.as_slice()));
    let n = XNonce::from_slice(nonce.as_slice());
    cipher.decrypt(n, ciphertext.as_slice()).ok()
}

/// Relies on the base64 crate's `STANDARD` engine `encode`.
#[verifier::external_body]
fn b64_encode(bytes: &Vec<u8>) -> (r: String)
    ensures
        r@ == base64_std(bytes@),
{
    base64::engine::general_purpose::STANDARD.encode(bytes.as_slice())
}

/// Relies on the base64 crate's `STANDARD` engine `decode`: the exact
/// inverse of `encode`. The engine requires canonical padding and
/// refuses trailing bits, so decoding succeeds exactly on the strings
/// `encode` produces, and returns the encoded bytes.
#[verifier::external_body]
fn b64_decode(text: &str) -> (r: Option<Vec<u8>>)
    ensures
        r matches Some(d) ==> text@ == base64_std(d@),
        r matches Some(d) ==> forall|b: Seq<u8>| text@ == #[trigger] base64_std(b) ==> d@ == b,
        r is None ==> forall|b: Seq<u8>| text@ != #[trigger] base64_std(b),
{
    base64::engine::general_purpose::STANDARD.decode(text).ok()
}

/// The full stored form of a vault: entries serialized, sealed under
/// the passphrase-derived key, framed and base64-encoded.
pub open spec fn sealed_blob(
    pass: Seq<char>,
    m_cost: u32,
    t_cost: u32,
    salt: Seq<u8>,
    nonce: Seq<u8>,
    plain: Seq<char>,
) -> Seq<char> {
    base64_std(frame_spec(salt, nonce, xchacha_seal(argon2id_key(pass, salt, m_cost, t_cost), nonce, plain)))
}

/// The encrypted secret store: wallet seed phrases under wallet names,
/// with the encoded blob it is persisted as.
#[derive(Debug)]
pub struct Keycrypt {
    loaded: bool,
    entries: Vec<VaultEntry>,
    password: String,
    stored: Option<String>,
    m_cost: u32,
    t_cost: u32,
}

impl Keycrypt {
    /// Whether the vault is decrypted in memory, for contracts.
    pub closed spec fn loaded_spec(&self) -> bool {
        self.loaded
    }

    /// The decrypted entries, for contracts.
    pub closed spec fn entries_spec(&self) -> Seq<VaultEntry> {
        self.entries@
    }

    /// The current passphrase, for contracts.
    pub closed spec fn password_spec(&self) -> Seq<char> {
        self.password@
    }

    /// The stored blob, for contracts.
    pub closed spec fn stored_spec(&self) -> Option<Seq<char>> {
        match self.stored {
            Some(s) => Some(s@),
            None => None,
        }
    }

    /// The key derivation's memory cost, for contracts.
    pub closed spec fn m_cost_spec(&self) -> u32 {
        self.m_cost
    }

    /// The key derivation's pass count, for contracts.
    pub closed spec fn t_cost_spec(&self) -> u32 {
        self.t_cost
    }

    /// The cost parameters stay in the range the key derivation admits.
    pub open spec fn wf(&self) -> bool {
        8 <= self.m_cost_spec() && 1 <= self.t_cost_spec()
    }

    /// A vault over the given stored blob (`None` when no vault file
    /// exists yet), locked, with the default key-derivation costs.
    pub fn new(stored: Option<String>) -> (r: Self)
        ensures
            r.wf(),
            !r.loaded_spec(),
            r.entries_spec() == Seq::<VaultEntry>::empty(),
            r.password_spec() == Seq::<char>::empty(),
            r.stored_spec() == (match stored {
                Some(s) => Some(s@),
                None => None::<Seq<char>>,
            }),
            r.m_cost_spec() == VAULT_M_COST,
            r.t_cost_spec() == VAULT_T_COST,
    {
        Keycrypt {
            loaded: false,
            entries: Vec::new(),
            password: String::new(),
            stored,
            m_cost: VAULT_M_COST,
            t_cost: VAULT_T_COST,
        }
    }

    /// As `new`, with explicit key-derivation costs, for deployments
    /// with other memory budgets.
    pub fn with_kdf_cost(stored: Option<String>, m_cost: u32, t_cost: u32) -> (r: Self)
        requires
            8 <= m_cost,
            1 <= t_cost,
        ensures
            r.wf(),
            !r.loaded_spec(),
            r.entries_spec() == Seq::<VaultEntry>::empty(),
            r.password_spec() == Seq::<char>::empty(),
            r.stored_spec() == (match stored {
                Some(s) => Some(s@),
                None => None::<Seq<char>>,
            }),
            r.m_cost_spec() == m_cost,
            r.t_cost_spec() == t_cost,
    {
        Keycrypt { loaded: false, entries: Vec::new(), password: String::new(), stored, m_cost, t_cost }
    }

    /// Whether an encrypted vault exists at all.
    pub fn vault_exists(&self) -> (r: bool)
        ensures
            r == (self.stored_spec() is Some),
    {
        self.stored.is_some()
    }

    /// Whether the vault has been decrypted in memory.
    pub fn is_loaded(&self) -> (r: bool)
        ensures
            r == self.loaded_spec(),
    {
        self.loaded
    }

    /// The blob to persist as the vault file, if any.
    pub fn stored_blob(&self) -> (r: Option<&String>)
        ensures
            match r {
                Some(s) => self.stored_spec() == Some(s@),
                None => self.stored_spec() is None,
            },
    {
        match &self.stored {
            Some(s) => Some(s),
            None => None,
        }
    }

    /// Re-encrypts the current entries under the current passphrase
    /// with a fresh random salt and nonce, replacing the stored blob.
    fn reseal(&mut self) -> (r: Result<(), String>)
        requires
            old(self).wf(),
            old(self).password_spec().len() < 0x40000000,
        ensures
            final(self).wf(),
            final(self).loaded_spec() == old(self).loaded_spec(),
            final(self).entries_spec() == old(self).entries_spec(),
            final(self).password_spec() == old(self).password_spec(),
            final(self).m_cost_spec() == old(self).m_cost_spec(),
            final(self).t_cost_spec() == old(self).t_cost_spec(),
            r is Ok ==> exists|salt: Seq<u8>, nonce: Seq<u8>|
                salt.len() == 16 && nonce.len() == 24 && final(self).stored_spec() == Some(
                    #[trigger] sealed_blob(
                        old(self).password_spec(),
                        old(self).m_cost_spec(),
                        old(self).t_cost_spec(),
                        salt,
                        nonce,
                        encode_entries_spec(entries_view(old(self).entries_spec())),
                    ),
                ),
            r matches Err(e) ==> final(self).stored_spec() == old(self).stored_spec() && (e@
                == "Failed to fill salt"@ || e@ == "Failed to fill nonce"@ || e@
                == "Encryption failed"@),
    {
        let salt = match random_bytes(SALT_LEN) {
            Ok(b) => b,
            Err(_) => {
                return Err(String::from_str("Failed to fill salt"));
            },
        };
        let nonce = match random_bytes(NONCE_LEN) {
            Ok(b) => b,
            Err(_) => {
                return Err(String::from_str("Failed to fill nonce"));
            },
        };
        let key = derive_key(self.password.as_str(), &salt, self.m_cost, self.t_cost);
        let plain = encode_entries(&self.entries);
        let ct = match aead_seal(&key, &nonce, plain.as_str()) {
            Ok(c) => c,
            Err(_) => {
                return Err(String::from_str("Encryption failed"));
            },
        };
        let framed = build_frame(&salt, &nonce, &ct);
        let blob = b64_encode(&framed);
        self.stored = Some(blob);
        proof {
            assert(final(self).stored_spec() == Some(
                sealed_blob(
                    old(self).password_spec(),
                    old(self).m_cost_spec(),
                    old(self).t_cost_spec(),
                    salt@,
                    nonce@,
                    encode_entries_spec(entries_view(old(self).entries_spec())),
                ),
            ));
        }
        Ok(())
    }

    /// Creates the vault: sets the passphrase, starts from an empty
    /// entry map, and seals it immediately, so that even an empty vault
    /// has a valid encrypted file. On success the vault is loaded.
    pub fn create(&mut self, password: String) -> (r: Result<(), String>)
        requires
            old(self).wf(),
            password@.len() < 0x40000000,
        ensures
            final(self).wf(),
            final(self).password_spec() == password@,
            final(self).entries_spec() == Seq::<VaultEntry>::empty(),
            final(self).m_cost_spec() == old(self).m_cost_spec(),
            final(self).t_cost_spec() == old(self).t_cost_spec(),
            r is Ok ==> final(self).loaded_spec() && exists|salt: Seq<u8>, nonce: Seq<u8>|
                salt.len() == 16 && nonce.len() == 24 && final(self).stored_spec() == Some(
                    #[trigger] sealed_blob(
                        password@,
                        old(self).m_cost_spec(),
                        old(self).t_cost_spec(),
                        salt,
                        nonce,
                        encode_entries_spec(Seq::<(Seq<char>, Seq<char>)>::empty()),
                    ),
                ),
            r is Err ==> final(self).loaded_spec() == old(self).loaded_spec()
                && final(self).stored_spec() == old(self).stored_spec(),
    {
        self.password = password;
        self.entries = Vec::new();
        proof {
            assert(entries_view(self.entries@) =~= Seq::<(Seq<char>, Seq<char>)>::empty());
        }
        let res = self.reseal();
        match res {
            Ok(_) => {
                self.loaded = true;
                Ok(())
            },
            Err(e) => Err(e),
        }
    }

    /// Unlocks the vault: decodes, parses and decrypts the stored blob
    /// under the given passphrase. Success is owed whenever the blob
    /// was sealed under that passphrase with the current costs: the
    /// entries then become exactly the ones that were sealed. Every
    /// failure leaves the entries and the loaded flag untouched, and
    /// each failure of the blob's shape names its cause: no blob, text
    /// that encodes nothing, a decoded frame too short for its header,
    /// salt or nonce, or a wrong magic header. Which of the remaining
    /// two errors an undecryptable frame yields (failed authentication,
    /// or sealed bytes that are not text) depends on the cipher's
    /// verdict and is not pinned here.
    pub fn load(&mut self, password: String) -> (r: Result<(), String>)
        requires
            old(self).wf(),
            password@.len() < 0x40000000,
        ensures
            final(self).wf(),
            final(self).password_spec() == password@,
            final(self).stored_spec() == old(self).stored_spec(),
            final(self).m_cost_spec() == old(self).m_cost_spec(),
            final(self).t_cost_spec() == old(self).t_cost_spec(),
            r is Ok ==> final(self).loaded_spec(),
            r is Err ==> final(self).loaded_spec() == old(self).loaded_spec()
                && final(self).entries_spec() == old(self).entries_spec(),
            old(self).stored_spec() is None ==> (r matches Err(e) && e@
                == "Failed to read encrypted file"@),
            (old(self).stored_spec() is Some && (forall|b: Seq<u8>|
                old(self).stored_spec().unwrap() != #[trigger] base64_std(b))) ==> (r matches Err(
                e,
            ) && e@ == "Base64 decoding failed"@),
            forall|b: Seq<u8>|
                old(self).stored_spec() == Some(#[trigger] base64_std(b)) && b.len() < 8 ==> (r
                    matches Err(e) && e@ == "File too short or corrupted (missing header)"@),
            forall|b: Seq<u8>|
                old(self).stored_spec() == Some(#[trigger] base64_std(b)) && b.len() >= 8
                    && b.take(8) != magic() ==> (r matches Err(e) && e@
                    == "Invalid file format or wrong version"@),
            forall|b: Seq<u8>|
                old(self).stored_spec() == Some(#[trigger] base64_std(b)) && b.len() >= 8
                    && b.take(8) == magic() && b.len() < 24 ==> (r matches Err(e) && e@
                    == "File too short or corrupted (missing salt)"@),
            forall|b: Seq<u8>|
                old(self).stored_spec() == Some(#[trigger] base64_std(b)) && b.take(8) == magic()
                    && 24 <= b.len() < 48 ==> (r matches Err(e) && e@
                    == "File too short or corrupted (missing nonce)"@),
            forall|salt: Seq<u8>, nonce: Seq<u8>, plain: Seq<char>|
                salt.len() == 16 && nonce.len() == 24 && old(self).stored_spec() == Some(
                    #[trigger] sealed_blob(
                        password@,
                        old(self).m_cost_spec(),
                        old(self).t_cost_spec(),
                        salt,
                        nonce,
                        plain,
                    ),
                ) ==> r is Ok && entries_view(final(self).entries_spec()) == parse_entries_spec(
                    plain,
                ),
    {
        broadcast use vstd::utf8::encode_utf8_valid_utf8, vstd::utf8::encode_utf8_decode_utf8;

        self.password = password;
        let blob = match &self.stored {
            Some(b) => b.clone(),
            None => {
                return Err(String::from_str("Failed to read encrypted file"));
            },
        };
        let decoded = match b64_decode(blob.as_str()) {
            Some(d) => d,
            None => {
                return Err(String::from_str("Base64 decoding failed"));
            },
        };
        proof {
            assert(blob@ == old(self).stored_spec().unwrap());
            assert(blob@ == base64_std(decoded@));
            assert forall|b: Seq<u8>|
                old(self).stored_spec() == Some(#[trigger] base64_std(b)) implies decoded@
                == b by {
            }
        }
        let (salt, nonce, ct) = match parse_frame(&decoded) {
            Ok(p) => p,
            Err(e) => {
                proof {
                    assert forall|salt: Seq<u8>, nonce: Seq<u8>, plain: Seq<char>|
                        !(salt.len() == 16 && nonce.len() == 24 && old(self).stored_spec()
                            == Some(
                            #[trigger] sealed_blob(
                                password@,
                                old(self).m_cost_spec(),
                                old(self).t_cost_spec(),
                                salt,
                                nonce,
                                plain,
                            ),
                        )) by {
                        if salt.len() == 16 && nonce.len() == 24 && old(self).stored_spec()
                            == Some(
                            sealed_blob(
                                password@,
                                old(self).m_cost_spec(),
                                old(self).t_cost_spec(),
                                salt,
                                nonce,
                                plain,
                            ),
                        ) {
                            let key = argon2id_key(
                                password@,
                                salt,
                                old(self).m_cost_spec(),
                                old(self).t_cost_spec(),
                            );
                            let fr = frame_spec(salt, nonce, xchacha_seal(key, nonce, plain));
                            assert(decoded@ == fr);
                            assert(decoded@.take(8) =~= magic());
                            assert(decoded@.len() >= 48);
                        }
                    }
                }
                return Err(e);
            },
        };
        proof {
            lemma_frame_parts(decoded@);
        }
        let key = derive_key(self.password.as_str(), &salt, self.m_cost, self.t_cost);
        let pt_bytes = match aead_open(&key, &nonce, &ct) {
            Some(b) => b,
            None => {
                return Err(
                    String::from_str("Decryption failed: wrong password or corrupted file"),
                );
            },
        };
        let text = match crate::kernel::bytes_to_string(pt_bytes) {
            Some(t) => t,
            None => {
                return Err(String::from_str("Decrypted data is not valid UTF-8"));
            },
        };
        let entries = parse_entries(text.as_str());
        self.entries = entries;
        self.loaded = true;
        Ok(())
    }
}

impl Keycrypt {
    /// Whether some entry carries this wallet name.
    pub open spec fn has_wallet(&self, name: Seq<char>) -> bool {
        exists|i: int|
            0 <= i < self.entries_spec().len() && (#[trigger] self.entries_spec()[i]).name@
                == name
    }

    /// The names of all stored wallets, in storage order.
    pub fn get_wallets(&self) -> (r: Vec<String>)
        ensures
            r@.len() == self.entries_spec().len(),
            forall|i: int|
                0 <= i < r@.len() ==> r@[i]@ == (#[trigger] self.entries_spec()[i]).name@,
    {
        let mut r: Vec<String> = Vec::new();
        let mut i: usize = 0;
        while i < self.entries.len()
            invariant
                i <= self.entries_spec().len(),
                r@.len() == i,
                forall|j: int|
                    0 <= j < i ==> r@[j]@ == (#[trigger] self.entries_spec()[j]).name@,
            decreases self.entries_spec().len() - i,
        {
            r.push(self.entries[i].name.clone());
            i += 1;
        }
        r
    }

    /// The seed phrase stored under a wallet name. The vault must be
    /// loaded and the wallet known.
    pub fn get_seedphrase(&self, wallet_name: String) -> (r: Result<String, String>)
        ensures
            match r {
                Ok(s) => self.loaded_spec() && exists|i: int|
                    0 <= i < self.entries_spec().len()
                        && (#[trigger] self.entries_spec()[i]).name@ == wallet_name@
                        && s@ == self.entries_spec()[i].secret@,
                Err(e) => {
                    ||| !self.loaded_spec() && e@ == "Vault not loaded"@
                    ||| self.loaded_spec() && !self.has_wallet(wallet_name@) && e@ == "Wallet "@
                        + wallet_name@ + " not found"@
                },
            },
    {
        if !self.loaded {
            return Err(String::from_str("Vault not loaded"));
        }
        let mut i: usize = 0;
        while i < self.entries.len()
            invariant
                self.loaded_spec(),
                i <= self.entries_spec().len(),
                forall|j: int|
                    0 <= j < i ==> (#[trigger] self.entries_spec()[j]).name@ != wallet_name@,
            decreases self.entries_spec().len() - i,
        {
            if self.entries[i].name.eq(&wallet_name) {
                return Ok(self.entries[i].secret.clone());
            }
            i += 1;
        }
        let mut e = String::from_str("Wallet ");
        e.append(wallet_name.as_str());
        e.append(" not found");
        Err(e)
    }

    /// Stores a seed phrase under a fresh wallet name and re-seals the
    /// vault. The vault must be loaded, and the name must be new. When
    /// sealing fails, the entry is taken out again: a failure during
    /// the re-persist leaves the vault as it was.
    pub fn add_wallet(&mut self, wallet_name: String, seedphrase: String) -> (r: Result<
        (),
        String,
    >)
        requires
            old(self).wf(),
            old(self).password_spec().len() < 0x40000000,
        ensures
            final(self).wf(),
            final(self).password_spec() == old(self).password_spec(),
            final(self).loaded_spec() == old(self).loaded_spec(),
            final(self).m_cost_spec() == old(self).m_cost_spec(),
            final(self).t_cost_spec() == old(self).t_cost_spec(),
            match r {
                Ok(_) => {
                    &&& old(self).loaded_spec()
                    &&& !old(self).has_wallet(wallet_name@)
                    &&& final(self).entries_spec().len() == old(self).entries_spec().len() + 1
                    &&& final(self).entries_spec().last().name@ == wallet_name@
                    &&& final(self).entries_spec().last().secret@ == seedphrase@
                    &&& final(self).entries_spec().take(old(self).entries_spec().len() as int)
                        == old(self).entries_spec()
                    &&& exists|salt: Seq<u8>, nonce: Seq<u8>|
                        salt.len() == 16 && nonce.len() == 24 && final(self).stored_spec()
                            == Some(
                            #[trigger] sealed_blob(
                                old(self).password_spec(),
                                old(self).m_cost_spec(),
                                old(self).t_cost_spec(),
                                salt,
                                nonce,
                                encode_entries_spec(entries_view(final(self).entries_spec())),
                            ),
                        )
                },
                Err(e) => {
                    ||| !old(self).loaded_spec() && *final(self) == *old(self) && e@
                        == "Vault not loaded"@
                    ||| old(self).loaded_spec() && old(self).has_wallet(wallet_name@)
                        && *final(self) == *old(self) && e@ == "Wallet "@ + wallet_name@
                        + " already exists"@
                    ||| old(self).loaded_spec() && !old(self).has_wallet(wallet_name@)
                        && final(self).stored_spec() == old(self).stored_spec()
                        && final(self).entries_spec() == old(self).entries_spec() && (e@
                        == "Failed to fill salt"@ || e@ == "Failed to fill nonce"@ || e@
                        == "Encryption failed"@)
                },
            },
    {
        if !self.loaded {
            return Err(String::from_str("Vault not loaded"));
        }
        let mut i: usize = 0;
        while i < self.entries.len()
            invariant
                *self == *old(self),
                self.wf(),
                old(self).wf(),
                self.loaded_spec(),
                i <= self.entries_spec().len(),
                forall|j: int|
                    0 <= j < i ==> (#[trigger] self.entries_spec()[j]).name@ != wallet_name@,
            decreases self.entries_spec().len() - i,
        {
            if self.entries[i].name.eq(&wallet_name) {
                let mut e = String::from_str("Wallet ");
                e.append(wallet_name.as_str());
                e.append(" already exists");
                return Err(e);
            }
            i += 1;
        }
        let ghost before = self.entries@;
        self.entries.push(VaultEntry { name: wallet_name, secret: seedphrase });
        match self.reseal() {
            Ok(_) => Ok(()),
            Err(e) => {
                self.entries.pop();
                proof {
                    assert(self.entries@ =~= before);
                }
                Err(e)
            },
        }
    }
}

/// A framed blob determines its parts: fixed-length magic, salt and
/// nonce prefixes split a concatenation back into its pieces.
proof fn lemma_frame_parts(bytes: Seq<u8>)
    ensures
        forall|salt: Seq<u8>, nonce: Seq<u8>, ct: Seq<u8>|
            salt.len() == 16 && nonce.len() == 24 && bytes == #[trigger] frame_spec(
                salt,
                nonce,
                ct,
            ) ==> bytes.subrange(8, 24) == salt && bytes.subrange(24, 48) == nonce && bytes.skip(
                48,
            ) == ct,
{
    assert forall|salt: Seq<u8>, nonce: Seq<u8>, ct: Seq<u8>|
        salt.len() == 16 && nonce.len() == 24 && bytes == #[trigger] frame_spec(
            salt,
            nonce,
            ct,
        ) implies bytes.subrange(8, 24) == salt && bytes.subrange(24, 48) == nonce && bytes.skip(
        48,
    ) == ct by {
        assert(bytes.subrange(8, 24) =~= salt);
        assert(bytes.subrange(24, 48) =~= nonce);
        assert(bytes.skip(48) =~= ct);
    }
}

} // verus!
