use vstd::prelude::*;

use vstd::string::StrSliceExecFns;

verus! {

/// The characters the write path strips from either end of a message:
/// blanks, tabs and line breaks.
pub open spec fn is_space(c: char) -> bool {
    c == ' ' || c == '\t' || c == '\n' || c == '\r'
}

/// The text without its leading whitespace.
pub open spec fn trim_start_model(s: Seq<char>) -> Seq<char>
    decreases s.len(),
{
    if s.len() > 0 && is_space(s[0]) {
        trim_start_model(s.drop_first())
    } else {
        s
    }
}

/// The text without its trailing whitespace.
pub open spec fn trim_end_model(s: Seq<char>) -> Seq<char>
    decreases s.len(),
{
    if s.len() > 0 && is_space(s[s.len() - 1]) {
        trim_end_model(s.drop_last())
    } else {
        s
    }
}

/// The text without surrounding whitespace.
pub open spec fn trim_model(s: Seq<char>) -> Seq<char> {
    trim_end_model(trim_start_model(s))
}

fn is_space_char(c: char) -> (b: bool)
    ensures
        b == is_space(c),
{
    c == ' ' || c == '\t' || c == '\n' || c == '\r'
}

/// Dropping an all-whitespace prefix of length `k` is what
/// `trim_start_model` does, provided nothing space-like follows it.
proof fn lemma_trim_start_at(s: Seq<char>, k: int)
    requires
        0 <= k <= s.len(),
        forall|j: int| 0 <= j < k ==> is_space(s[j]),
        k < s.len() ==> !is_space(s[k]),
    ensures
        trim_start_model(s) == s.subrange(k, s.len() as int),
    decreases k,
{
    if k == 0 {
        assert(s.subrange(0, s.len() as int) =~= s);
    } else {
        let t = s.drop_first();
        assert forall|j: int| 0 <= j < k - 1 implies is_space(t[j]) by {
            assert(t[j] == s[j + 1]);
        }
        lemma_trim_start_at(t, k - 1);
        assert(t.subrange(k - 1, t.len() as int) =~= s.subrange(k, s.len() as int));
    }
}

/// Dropping an all-whitespace suffix from position `k` on is what
/// `trim_end_model` does, provided nothing space-like precedes it.
proof fn lemma_trim_end_at(s: Seq<char>, k: int)
    requires
        0 <= k <= s.len(),
        forall|j: int| k <= j < s.len() ==> is_space(s[j]),
        k > 0 ==> !is_space(s[k - 1]),
    ensures
        trim_end_model(s) == s.subrange(0, k),
    decreases s.len() - k,
{
    if k == s.len() {
        if s.len() > 0 && is_space(s[s.len() - 1]) {
            assert(false);
        }
        assert(s.subrange(0, s.len() as int) =~= s);
    } else {
        let t = s.drop_last();
        assert forall|j: int| k <= j < t.len() implies is_space(t[j]) by {
            assert(t[j] == s[j]);
        }
        lemma_trim_end_at(t, k);
        assert(t.subrange(0, k) =~= s.subrange(0, k));
    }
}

/// Validate an inbound message before it is handed to the durable
/// store: surrounding whitespace is stripped, and a message that is
/// empty once stripped is rejected.
pub fn validate_message_text(text: &str) -> (r: Option<String>)
    ensures
        trim_model(text@).len() == 0 ==> r is None,
        trim_model(text@).len() > 0 ==> (match r {
            Some(t) => t@ == trim_model(text@),
            None => false,
        }),
{
    let n = text.unicode_len();
    let mut start: usize = 0;
    while start < n && is_space_char(text.get_char(start))
        invariant
            n == text@.len(),
            start <= n,
            forall|j: int| 0 <= j < start ==> is_space(text@[j]),
        decreases n - start,
    {
        start = start + 1;
    }
    proof {
        lemma_trim_start_at(text@, start as int);
    }
    let ghost mid = text@.subrange(start as int, text@.len() as int);
    let mut end: usize = n;
    while end > start && is_space_char(text.get_char(end - 1))
        invariant
            n == text@.len(),
            start <= end <= n,
            forall|j: int| end <= j < n ==> is_space(text@[j]),
        decreases end,
    {
        end = end - 1;
    }
    proof {
        assert forall|j: int| end - start <= j < mid.len() implies is_space(mid[j]) by {
            assert(mid[j] == text@[start + j]);
        }
        if end > start {
            assert(mid[end - start - 1] == text@[end - 1]);
        }
        lemma_trim_end_at(mid, end - start);
    }
    if start == end {
        return None;
    }
    let out = text.substring_char(start, end).to_owned();
    proof {
        assert(mid.subrange(0, end - start) =~= text@.subrange(start as int, end as int));
    }
    Some(out)
}

} // verus!
