//! First-run acceptance flags for the terms of use and the privacy
//! policy.
//!
//! Each flag is persisted as a small text file holding `true` or
//! `false`. Reading and writing the files is the caller's concern; this
//! module parses their contents (whitespace-tolerant, anything else
//! counts as not accepted) and keeps the in-memory state.

use vstd::prelude::*;
use crate::strutil::str_chars;

verus! {

/// Whitespace stripped around a flag file's content.
pub open spec fn is_flag_space(c: char) -> bool {
    c == ' ' || c == '\t' || c == '\n' || c == '\r'
}

/// `s` without leading whitespace.
pub open spec fn trim_start_spec(s: Seq<char>) -> Seq<char>
    decreases s.len(),
{
    if s.len() > 0 && is_flag_space(s[0]) {
        trim_start_spec(s.drop_first())
    } else {
        s
    }
}

/// `s` without trailing whitespace.
pub open spec fn trim_end_spec(s: Seq<char>) -> Seq<char>
    decreases s.len(),
{
    if s.len() > 0 && is_flag_space(s.last()) {
        trim_end_spec(s.drop_last())
    } else {
        s
    }
}

/// `s` without surrounding whitespace.
pub open spec fn trim_spec(s: Seq<char>) -> Seq<char> {
    trim_end_spec(trim_start_spec(s))
}

/// The boolean a flag file's content denotes, if any: exactly `true` or
/// `false` up to surrounding whitespace.
pub open spec fn parse_flag_spec(s: Seq<char>) -> Option<bool> {
    if trim_spec(s) == "true"@ {
        Some(true)
    } else if trim_spec(s) == "false"@ {
        Some(false)
    } else {
        None
    }
}

proof fn lemma_trim_start(s: Seq<char>, k: int)
    requires
        0 <= k <= s.len(),
        forall|j: int| 0 <= j < k ==> is_flag_space(#[trigger] s[j]),
        k < s.len() ==> !is_flag_space(s[k]),
    ensures
        trim_start_spec(s) == s.skip(k),
    decreases k,
{
    if k == 0 {
        assert(s.skip(0) == s);
    } else {
        assert(is_flag_space(s[0]));
        assert(s.drop_first() == s.skip(1));
        lemma_trim_start_shift(s, k);
        lemma_trim_start(s.skip(1), k - 1);
        assert(s.skip(1).skip(k - 1) =~= s.skip(k));
    }
}

proof fn lemma_trim_start_shift(s: Seq<char>, k: int)
    requires
        1 <= k <= s.len(),
        forall|j: int| 0 <= j < k ==> is_flag_space(#[trigger] s[j]),
        k < s.len() ==> !is_flag_space(s[k]),
    ensures
        forall|j: int| 0 <= j < k - 1 ==> is_flag_space(#[trigger] s.skip(1)[j]),
        k - 1 < s.skip(1).len() ==> !is_flag_space(s.skip(1)[k - 1]),
{
    assert forall|j: int| 0 <= j < k - 1 implies is_flag_space(#[trigger] s.skip(1)[j]) by {
        assert(s.skip(1)[j] == s[j + 1]);
    }
    if k - 1 < s.skip(1).len() {
        assert(s.skip(1)[k - 1] == s[k]);
    }
}

proof fn lemma_trim_end(s: Seq<char>, e: int)
    requires
        0 <= e <= s.len(),
        forall|j: int| e <= j < s.len() ==> is_flag_space(#[trigger] s[j]),
        e > 0 ==> !is_flag_space(s[e - 1]),
    ensures
        trim_end_spec(s) == s.take(e),
    decreases s.len(),
{
    if e == s.len() {
        if s.len() > 0 {
            assert(!is_flag_space(s.last()));
        }
        assert(s.take(e) == s);
    } else {
        assert(is_flag_space(s[s.len() - 1]));
        assert(s.drop_last() == s.take(s.len() - 1));
        lemma_trim_end(s.take(s.len() - 1), e);
        assert(s.take(s.len() - 1).take(e) =~= s.take(e));
    }
}

fn flag_space(c: char) -> (r: bool)
    ensures
        r == is_flag_space(c),
{
    c == ' ' || c == '\t' || c == '\n' || c == '\r'
}

/// Parses a flag file's content.
pub fn parse_flag_content(s: &str) -> (r: Option<bool>)
    ensures
        r == parse_flag_spec(s@),
{
    let v = str_chars(s);
    let n = v.len();
    let mut start: usize = 0;
    while start < n && flag_space(v[start])
        invariant
            v@ == s@,
            n == v@.len(),
            start <= n,
            forall|j: int| 0 <= j < start ==> is_flag_space(#[trigger] s@[j]),
        decreases n - start,
    {
        start += 1;
    }
    let mut end: usize = n;
    while end > start && flag_space(v[end - 1])
        invariant
            v@ == s@,
            n == v@.len(),
            start <= end <= n,
            forall|j: int| 0 <= j < start ==> is_flag_space(#[trigger] s@[j]),
            start < n ==> !is_flag_space(s@[start as int]),
            forall|j: int| end <= j < n ==> is_flag_space(#[trigger] s@[j]),
        decreases end,
    {
        end -= 1;
    }
    proof {
        lemma_trim_start(s@, start as int);
        let t1 = s@.skip(start as int);
        assert forall|j: int| end - start <= j < t1.len() implies is_flag_space(
            #[trigger] t1[j],
        ) by {
            assert(t1[j] == s@[j + start]);
        }
        if end > start {
            assert(t1[end - start - 1] == s@[end - 1]);
        }
        lemma_trim_end(t1, end - start);
        assert(trim_spec(s@) == s@.skip(start as int).take(end - start));
        assert forall|j: int| 0 <= j < end - start implies trim_spec(s@)[j] == s@[start + j] by {
            assert(s@.skip(start as int)[j] == s@[start + j]);
        }
    }
    let len = end - start;
    proof {
        reveal_strlit("true");
        reveal_strlit("false");
    }
    if len == 4 && v[start] == 't' && v[start + 1] == 'r' && v[start + 2] == 'u' && v[start + 3]
        == 'e' {
        proof {
            assert(trim_spec(s@) =~= "true"@);
        }
        Some(true)
    } else if len == 5 && v[start] == 'f' && v[start + 1] == 'a' && v[start + 2] == 'l' && v[start
        + 3] == 's' && v[start + 4] == 'e' {
        proof {
            assert(trim_spec(s@) =~= "false"@);
        }
        Some(false)
    } else {
        proof {
            if trim_spec(s@) == "true"@ {
                assert(len == 4);
                assert(trim_spec(s@)[0] == s@[start + 0]);
                assert(trim_spec(s@)[1] == s@[start + 1]);
                assert(trim_spec(s@)[2] == s@[start + 2]);
                assert(trim_spec(s@)[3] == s@[start + 3]);
            }
            if trim_spec(s@) == "false"@ {
                assert(len == 5);
                assert(trim_spec(s@)[0] == s@[start + 0]);
                assert(trim_spec(s@)[1] == s@[start + 1]);
                assert(trim_spec(s@)[2] == s@[start + 2]);
                assert(trim_spec(s@)[3] == s@[start + 3]);
                assert(trim_spec(s@)[4] == s@[start + 4]);
            }
        }
        None
    }
}

/// What to make of a flag file found (or not found) on disk: the flag's
/// value, and whether the file should be (re)written with `false`
/// because it was missing or corrupt.
pub fn flag_from_file(content: Option<&str>) -> (r: (bool, bool))
    ensures
        match content {
            Some(c) => match parse_flag_spec(c@) {
                Some(v) => r == (v, false),
                None => r == (false, true),
            },
            None => r == (false, true),
        },
{
    match content {
        Some(c) => match parse_flag_content(c) {
            Some(v) => (v, false),
            None => (false, true),
        },
        None => (false, true),
    }
}

/// In-memory acceptance state of the two flags.
#[derive(Debug)]
pub struct TermsState {
    terms_of_use_accepted: bool,
    privacy_policy_accepted: bool,
}

impl TermsState {
    /// Whether the terms of use are accepted, for contracts.
    pub closed spec fn terms_spec(&self) -> bool {
        self.terms_of_use_accepted
    }

    /// Whether the privacy policy is accepted, for contracts.
    pub closed spec fn privacy_spec(&self) -> bool {
        self.privacy_policy_accepted
    }

    /// State restored from the two parsed flag values.
    pub fn new(terms_of_use_accepted: bool, privacy_policy_accepted: bool) -> (r: Self)
        ensures
            r.terms_spec() == terms_of_use_accepted,
            r.privacy_spec() == privacy_policy_accepted,
    {
        TermsState { terms_of_use_accepted, privacy_policy_accepted }
    }

    /// Marks the terms of use accepted. The caller persists `true` to
    /// the flag file.
    pub fn accept_terms_of_use(&mut self)
        ensures
            final(self).terms_spec(),
            final(self).privacy_spec() == old(self).privacy_spec(),
    {
        self.terms_of_use_accepted = true;
    }

    pub fn is_terms_of_use_accepted(&self) -> (r: bool)
        ensures
            r == self.terms_spec(),
    {
        self.terms_of_use_accepted
    }

    /// Marks the privacy policy accepted. The caller persists `true` to
    /// the flag file.
    pub fn accept_privacy_policy(&mut self)
        ensures
            final(self).privacy_spec(),
            final(self).terms_spec() == old(self).terms_spec(),
    {
        self.privacy_policy_accepted = true;
    }

    pub fn is_privacy_policy_accepted(&self) -> (r: bool)
        ensures
            r == self.privacy_spec(),
    {
        self.privacy_policy_accepted
    }
}

} // verus!
