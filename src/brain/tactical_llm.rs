//! Reading the structured reply out of the language model's raw text.
use vstd::prelude::*;
use vstd::string::*;
use crate::text::chars_of;

verus! {

/// `pat` occurs in `s` at `i`.
pub open spec fn occurs_at(s: Seq<char>, pat: Seq<char>, i: int) -> bool {
    0 <= i && i + pat.len() <= s.len() && s.subrange(i, i + pat.len()) == pat
}

/// The first position from `i` on where `pat` occurs.
pub open spec fn first_from(s: Seq<char>, pat: Seq<char>, i: int) -> Option<int>
    decreases s.len() + 1 - i,
{
    if i < 0 || i + pat.len() > s.len() {
        None
    } else if occurs_at(s, pat, i) {
        Some(i)
    } else {
        first_from(s, pat, i + 1)
    }
}

/// The last position before `n` that holds `c`.
pub open spec fn last_before(s: Seq<char>, c: char, n: int) -> Option<int>
    decreases n,
{
    if n <= 0 {
        None
    } else if s[n - 1] == c {
        Some(n - 1)
    } else {
        last_before(s, c, n - 1)
    }
}

/// The text between the first "```json" fence and the next "```", if both are there.
pub open spec fn fenced_block(raw: Seq<char>) -> Option<Seq<char>> {
    match first_from(raw, "```json"@, 0) {
        Some(st) => {
            let b = st + "```json"@.len();
            match first_from(raw, "```"@, b) {
                Some(e) => Some(raw.subrange(b, e)),
                None => None,
            }
        },
        None => None,
    }
}

/// The JSON document in a reply: a fenced block; else the text from the first
/// `{` to the last `}`, where the first comes before the last; else the reply.
pub open spec fn json_block(raw: Seq<char>) -> Seq<char> {
    match fenced_block(raw) {
        Some(b) => b,
        None => match (first_from(raw, "{"@, 0), last_before(raw, '}', raw.len() as int)) {
            (Some(l), Some(r)) => if l < r {
                raw.subrange(l, r + 1)
            } else {
                raw
            },
            _ => raw,
        },
    }
}

/// First position from `from` on where `pat` occurs in `s`.
fn find_from(s: &Vec<char>, pat: &Vec<char>, from: usize) -> (r: Option<usize>)
    requires
        from <= s@.len(),
    ensures
        match r {
            Some(i) => first_from(s@, pat@, from as int) == Some(i as int) && from <= i && i
                + pat@.len() <= s@.len(),
            None => first_from(s@, pat@, from as int) is None,
        },
{
    let n = s.len();
    let m = pat.len();
    if m > n {
        return None;
    }
    let mut i: usize = from;
    while i <= n - m
        invariant
            m <= n == s@.len(),
            m == pat@.len(),
            from <= i,
            first_from(s@, pat@, from as int) == first_from(s@, pat@, i as int),
        decreases n + 1 - i,
    {
        let mut j: usize = 0;
        let mut ok = true;
        while j < m
            invariant
                m <= n == s@.len(),
                m == pat@.len(),
                i + m <= n,
                j <= m,
                ok == (forall|l: int| 0 <= l < j ==> s@[i + l] == pat@[l]),
            decreases m - j,
        {
            if s[i + j] != pat[j] {
                ok = false;
            }
            j += 1;
        }
        if ok {
            assert(s@.subrange(i as int, i + m) =~= pat@);
            return Some(i);
        }
        assert(!occurs_at(s@, pat@, i as int)) by {
            if s@.subrange(i as int, i + m) == pat@ {
                let l = choose|l: int| 0 <= l < m && s@[i + l] != pat@[l];
                assert(s@.subrange(i as int, i + m)[l] == s@[i + l]);
            }
        }
        i += 1;
    }
    None
}

/// Last position of `c` in `s`.
fn rfind_char(s: &Vec<char>, c: char) -> (r: Option<usize>)
    ensures
        match r {
            Some(i) => last_before(s@, c, s@.len() as int) == Some(i as int) && i < s@.len(),
            None => last_before(s@, c, s@.len() as int) is None,
        },
{
    let mut n = s.len();
    while n > 0
        invariant
            n <= s@.len(),
            last_before(s@, c, s@.len() as int) == last_before(s@, c, n as int),
        decreases n,
    {
        if s[n - 1] == c {
            return Some(n - 1);
        }
        n -= 1;
    }
    None
}

/// The JSON document in a raw reply (see `json_block`).
pub fn extract_json_block(raw: &str) -> (r: &str)
    ensures
        r@ == json_block(raw@),
{
    let s = chars_of(raw);
    let fence = chars_of("```json");
    let close = chars_of("```");
    let open = chars_of("{");
    // Taking the length records that it fits in a usize.
    let _len = s.len();
    match find_from(&s, &fence, 0) {
        Some(st) => {
            let b = st + fence.len();
            match find_from(&s, &close, b) {
                Some(e) => {
                    return raw.substring_char(b, e);
                },
                None => {},
            }
        },
        None => {},
    }
    match (find_from(&s, &open, 0), rfind_char(&s, '}')) {
        (Some(l), Some(r)) => {
            if l < r {
                return raw.substring_char(l, r + 1);
            }
        },
        _ => {},
    }
    raw
}

} // verus!
