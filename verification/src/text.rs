//! Character-level helpers behind the command grammar: whitespace
//! classification, trimming and prefix tests over `Seq<char>` models.
use vstd::prelude::*;
use vstd::string::*;

verus! {

/// Whether `c` carries the Unicode `White_Space` property.
pub open spec fn is_whitespace(c: char) -> bool {
    let n = c as u32;
    ||| 0x09 <= n <= 0x0D
    ||| n == 0x20
    ||| n == 0x85
    ||| n == 0xA0
    ||| n == 0x1680
    ||| 0x2000 <= n <= 0x200A
    ||| n == 0x2028
    ||| n == 0x2029
    ||| n == 0x202F
    ||| n == 0x205F
    ||| n == 0x3000
}

/// `s` without its leading whitespace.
pub open spec fn trim_start(s: Seq<char>) -> Seq<char>
    decreases s.len(),
{
    if s.len() > 0 && is_whitespace(s[0]) {
        trim_start(s.drop_first())
    } else {
        s
    }
}

/// `s` without its trailing whitespace.
pub open spec fn trim_end(s: Seq<char>) -> Seq<char>
    decreases s.len(),
{
    if s.len() > 0 && is_whitespace(s.last()) {
        trim_end(s.drop_last())
    } else {
        s
    }
}

/// `s` without leading and trailing whitespace.
pub open spec fn trim(s: Seq<char>) -> Seq<char> {
    trim_end(trim_start(s))
}

/// Executable test for the `White_Space` property.
pub fn char_is_whitespace(c: char) -> (b: bool)
    ensures
        b == is_whitespace(c),
{
    let n: u32 = c as u32;
    (0x09 <= n && n <= 0x0D) || n == 0x20 || n == 0x85 || n == 0xA0 || n == 0x1680 || (0x2000 <= n
        && n <= 0x200A) || n == 0x2028 || n == 0x2029 || n == 0x202F || n == 0x205F || n == 0x3000
}

/// Skipping a run of whitespace at the front is what `trim_start` does.
pub proof fn lemma_trim_start_at(s: Seq<char>, a: int)
    requires
        0 <= a <= s.len(),
        forall|j: int| 0 <= j < a ==> is_whitespace(#[trigger] s[j]),
        a == s.len() || !is_whitespace(s[a]),
    ensures
        trim_start(s) == s.subrange(a, s.len() as int),
    decreases a,
{
    if a == 0 {
        assert(s.subrange(0, s.len() as int) =~= s);
    } else {
        let rest = s.drop_first();
        assert(is_whitespace(s[0]));
        assert forall|j: int| 0 <= j < a - 1 implies is_whitespace(#[trigger] rest[j]) by {
            assert(rest[j] == s[j + 1]);
        }
        lemma_trim_start_at(rest, a - 1);
        assert(rest.subrange(a - 1, rest.len() as int) =~= s.subrange(a, s.len() as int));
    }
}

/// Dropping a run of whitespace at the back is what `trim_end` does.
pub proof fn lemma_trim_end_at(s: Seq<char>, b: int)
    requires
        0 <= b <= s.len(),
        forall|j: int| b <= j < s.len() ==> is_whitespace(#[trigger] s[j]),
        b == 0 || !is_whitespace(s[b - 1]),
    ensures
        trim_end(s) == s.subrange(0, b),
    decreases s.len() - b,
{
    if b == s.len() {
        assert(s.subrange(0, b) =~= s);
    } else {
        let rest = s.drop_last();
        assert(is_whitespace(s.last()));
        assert forall|j: int| b <= j < rest.len() implies is_whitespace(#[trigger] rest[j]) by {
            assert(rest[j] == s[j]);
        }
        lemma_trim_end_at(rest, b);
        assert(rest.subrange(0, b) =~= s.subrange(0, b));
    }
}

/// What trimming the front leaves is a suffix of `s` that is empty or
/// begins with a character that is no whitespace.
pub proof fn lemma_trim_start_shape(s: Seq<char>)
    ensures
        trim_start(s).is_suffix_of(s),
        trim_start(s).len() > 0 ==> !is_whitespace(trim_start(s)[0]),
    decreases s.len(),
{
    if s.len() > 0 && is_whitespace(s[0]) {
        let rest = s.drop_first();
        lemma_trim_start_shape(rest);
        let kept = trim_start(rest);
        assert(kept =~= s.subrange(s.len() - kept.len(), s.len() as int)) by {
            assert(kept == rest.subrange(rest.len() - kept.len(), rest.len() as int));
        }
    } else {
        assert(s =~= s.subrange(0, s.len() as int));
    }
}

/// What trimming the back leaves is a prefix of `s` that is empty or
/// ends with a character that is no whitespace.
pub proof fn lemma_trim_end_shape(s: Seq<char>)
    ensures
        trim_end(s).is_prefix_of(s),
        trim_end(s).len() > 0 ==> !is_whitespace(trim_end(s).last()),
    decreases s.len(),
{
    if s.len() > 0 && is_whitespace(s.last()) {
        let rest = s.drop_last();
        lemma_trim_end_shape(rest);
        let kept = trim_end(rest);
        assert(kept =~= s.subrange(0, kept.len() as int)) by {
            assert(kept == rest.subrange(0, kept.len() as int));
        }
    } else {
        assert(s =~= s.subrange(0, s.len() as int));
    }
}

/// A trimmed text neither begins nor ends with whitespace, and trimming
/// it again changes nothing.
pub proof fn lemma_trim_is_tight(s: Seq<char>)
    ensures
        trim(s).len() > 0 ==> !is_whitespace(trim(s)[0]) && !is_whitespace(trim(s).last()),
        trim(trim(s)) == trim(s),
{
    let front = trim_start(s);
    let both = trim_end(front);
    lemma_trim_start_shape(s);
    lemma_trim_end_shape(front);
    if both.len() > 0 {
        assert(both[0] == front.subrange(0, both.len() as int)[0]);
        assert(both[0] == front[0]);
    }
}

/// The characters of `s`, in order.
pub fn chars_of(s: &str) -> (v: Vec<char>)
    ensures
        v@ == s@,
{
    let mut v: Vec<char> = Vec::new();
    for c in it: s.chars()
        invariant
            it.seq() == s@,
            v@ == s@.take(it.index() as int),
    {
        v.push(c);
    }
    v
}

/// Tests whether `chars` begins with `prefix`; on a match the result is the
/// number of characters the prefix occupies.
pub fn strip_prefix(chars: &Vec<char>, prefix: &str) -> (r: Option<usize>)
    ensures
        r is Some <==> prefix@.is_prefix_of(chars@),
        r is Some ==> r->0 == prefix@.len(),
{
    let head = chars_of(prefix);
    if head.len() > chars.len() {
        return None;
    }
    let mut i: usize = 0;
    while i < head.len()
        invariant
            i <= head.len() <= chars.len(),
            head@ == prefix@,
            forall|j: int| 0 <= j < i ==> head@[j] == chars@[j],
        decreases head.len() - i,
    {
        if head[i] != chars[i] {
            assert(prefix@[i as int] != chars@.subrange(0, prefix@.len() as int)[i as int]);
            return None;
        }
        i = i + 1;
    }
    assert(prefix@ =~= chars@.subrange(0, prefix@.len() as int));
    Some(head.len())
}

/// Finds the bounds of the trimmed remainder of `chars` after position `from`.
pub fn trimmed_range(chars: &Vec<char>, from: usize) -> (r: (usize, usize))
    requires
        from <= chars.len(),
    ensures
        from <= r.0 <= r.1 <= chars.len(),
        chars@.subrange(r.0 as int, r.1 as int) == trim(chars@.skip(from as int)),
        forall|j: int| from <= j < r.0 || r.1 <= j < chars.len() ==> is_whitespace(#[trigger] chars@[j]),
        r.0 == chars.len() || !is_whitespace(chars@[r.0 as int]),
        r.1 == r.0 || !is_whitespace(chars@[r.1 - 1]),
{
    let ghost tail = chars@.skip(from as int);
    let mut a: usize = from;
    while a < chars.len() && char_is_whitespace(chars[a])
        invariant
            from <= a <= chars.len(),
            forall|j: int| from <= j < a ==> is_whitespace(#[trigger] chars@[j]),
        decreases chars.len() - a,
    {
        a = a + 1;
    }
    let mut b: usize = chars.len();
    while b > a && char_is_whitespace(chars[b - 1])
        invariant
            a <= b <= chars.len(),
            forall|j: int| b <= j < chars.len() ==> is_whitespace(#[trigger] chars@[j]),
        decreases b,
    {
        b = b - 1;
    }
    proof {
        assert forall|j: int| 0 <= j < a - from implies is_whitespace(#[trigger] tail[j]) by {
            assert(tail[j] == chars@[j + from]);
        }
        lemma_trim_start_at(tail, a - from);
        let middle = tail.subrange(a - from, tail.len() as int);
        assert(middle =~= chars@.subrange(a as int, chars.len() as int));
        assert forall|j: int| b - a <= j < middle.len() implies is_whitespace(
            #[trigger] middle[j],
        ) by {
            assert(middle[j] == chars@[j + a]);
        }
        lemma_trim_end_at(middle, b - a);
        assert(middle.subrange(0, b - a) =~= chars@.subrange(a as int, b as int));
    }
    (a, b)
}

} // verus!
