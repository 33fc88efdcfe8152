//! Small verified helpers for character-level work on strings.

use vstd::prelude::*;

verus! {

/// The whitespace characters that [`trim`] strips from line ends.
pub open spec fn is_space(c: char) -> bool {
    c == ' ' || c == '\t' || c == '\r'
}

/// Number of whitespace characters at the front of `s`.
pub open spec fn trim_start_idx(s: Seq<char>) -> int
    decreases s.len(),
{
    if s.len() > 0 && is_space(s[0]) {
        1 + trim_start_idx(s.drop_first())
    } else {
        0
    }
}

/// End of `s` once trailing whitespace is dropped.
pub open spec fn trim_end_idx(s: Seq<char>) -> int
    decreases s.len(),
{
    if s.len() > 0 && is_space(s.last()) {
        trim_end_idx(s.drop_last())
    } else {
        s.len() as int
    }
}

/// `s` without leading and trailing whitespace.
pub open spec fn trim_spec(s: Seq<char>) -> Seq<char> {
    if trim_start_idx(s) >= trim_end_idx(s) {
        Seq::empty()
    } else {
        s.subrange(trim_start_idx(s), trim_end_idx(s))
    }
}

pub proof fn lemma_trim_start_idx(s: Seq<char>)
    ensures
        0 <= trim_start_idx(s) <= s.len(),
        forall|k: int| 0 <= k < trim_start_idx(s) ==> is_space(s[k]),
        trim_start_idx(s) < s.len() ==> !is_space(s[trim_start_idx(s)]),
    decreases s.len(),
{
    if s.len() > 0 && is_space(s[0]) {
        lemma_trim_start_idx(s.drop_first());
        assert forall|k: int| 0 <= k < trim_start_idx(s) implies is_space(s[k]) by {
            if k > 0 {
                assert(s.drop_first()[k - 1] == s[k]);
            }
        }
    }
}

pub proof fn lemma_trim_end_idx(s: Seq<char>)
    ensures
        0 <= trim_end_idx(s) <= s.len(),
        forall|k: int| trim_end_idx(s) <= k < s.len() ==> is_space(s[k]),
        trim_end_idx(s) > 0 ==> !is_space(s[trim_end_idx(s) - 1]),
    decreases s.len(),
{
    if s.len() > 0 && is_space(s.last()) {
        lemma_trim_end_idx(s.drop_last());
        assert forall|k: int| trim_end_idx(s) <= k < s.len() implies is_space(s[k]) by {
            if k < s.len() - 1 {
                assert(s.drop_last()[k] == s[k]);
            }
        }
    }
}

/// Strict lexicographic order on character sequences.
pub open spec fn chars_lt(a: Seq<char>, b: Seq<char>) -> bool
    decreases a.len(),
{
    if b.len() == 0 {
        false
    } else if a.len() == 0 {
        true
    } else if a[0] != b[0] {
        a[0] < b[0]
    } else {
        chars_lt(a.drop_first(), b.drop_first())
    }
}

/// Exactly one of `chars_lt(a, b)`, `chars_lt(b, a)` and `a == b` holds.
pub proof fn lemma_chars_lt_total(a: Seq<char>, b: Seq<char>)
    ensures
        chars_lt(a, b) || chars_lt(b, a) || a == b,
        chars_lt(a, b) ==> !chars_lt(b, a) && a != b,
    decreases a.len() + b.len(),
{
    if a.len() > 0 && b.len() > 0 && a[0] == b[0] {
        lemma_chars_lt_total(a.drop_first(), b.drop_first());
        if a.drop_first() == b.drop_first() {
            assert forall|k: int| 0 <= k < a.len() implies a[k] == b[k] by {
                if k > 0 {
                    assert(a.drop_first()[k - 1] == a[k]);
                    assert(b.drop_first()[k - 1] == b[k]);
                }
            }
            assert(a =~= b);
        }
        if a == b {
            assert(a.drop_first() =~= b.drop_first());
        }
    }
}

/// Lexicographic order is transitive.
pub proof fn lemma_chars_lt_trans(a: Seq<char>, b: Seq<char>, c: Seq<char>)
    requires
        chars_lt(a, b),
        chars_lt(b, c),
    ensures
        chars_lt(a, c),
    decreases a.len(),
{
    if a.len() > 0 && b.len() > 0 && c.len() > 0 {
        if a[0] == b[0] && b[0] == c[0] {
            lemma_chars_lt_trans(a.drop_first(), b.drop_first(), c.drop_first());
        }
    }
}

/// The category components joined with `/` between them.
pub open spec fn join_slash(parts: Seq<Seq<char>>) -> Seq<char>
    decreases parts.len(),
{
    if parts.len() == 0 {
        Seq::empty()
    } else if parts.len() == 1 {
        parts[0]
    } else {
        parts[0] + seq!['/'] + join_slash(parts.drop_first())
    }
}

pub proof fn lemma_join_slash_snoc(parts: Seq<Seq<char>>, p: Seq<char>)
    requires
        parts.len() >= 1,
    ensures
        join_slash(parts.push(p)) == join_slash(parts) + seq!['/'] + p,
    decreases parts.len(),
{
    assert(parts.push(p)[0] == parts[0]);
    if parts.len() == 1 {
        assert(parts.push(p).drop_first() =~= seq![p]);
        assert(join_slash(seq![p]) == p);
        assert(join_slash(parts.push(p)) =~= join_slash(parts) + seq!['/'] + p);
    } else {
        lemma_join_slash_snoc(parts.drop_first(), p);
        assert(parts.push(p).drop_first() =~= parts.drop_first().push(p));
        assert(join_slash(parts.push(p)) == parts[0] + seq!['/'] + (join_slash(parts.drop_first())
            + seq!['/'] + p));
        assert(parts[0] + seq!['/'] + (join_slash(parts.drop_first()) + seq!['/'] + p) =~= (
        parts[0] + seq!['/'] + join_slash(parts.drop_first())) + seq!['/'] + p);
    }
}

/// Reports whether two string slices hold the same characters.
pub fn str_eq(a: &str, b: &str) -> (r: bool)
    ensures
        r == (a@ == b@),
{
    let la = a.unicode_len();
    let lb = b.unicode_len();
    if la != lb {
        return false;
    }
    let mut i: usize = 0;
    while i < la
        invariant
            i <= la,
            la == a@.len(),
            la == b@.len(),
            forall|k: int| 0 <= k < i ==> a@[k] == b@[k],
        decreases la - i,
    {
        if a.get_char(i) != b.get_char(i) {
            return false;
        }
        i = i + 1;
    }
    proof {
        assert(a@ =~= b@);
    }
    true
}

/// Reports whether the characters of `a` come strictly before those of `b`
/// in lexicographic order.
pub fn str_lt(a: &str, b: &str) -> (r: bool)
    ensures
        r == chars_lt(a@, b@),
{
    let la = a.unicode_len();
    let lb = b.unicode_len();
    proof {
        assert(a@.skip(0) =~= a@);
        assert(b@.skip(0) =~= b@);
    }
    let mut i: usize = 0;
    loop
        invariant
            i <= la,
            i <= lb,
            la == a@.len(),
            lb == b@.len(),
            chars_lt(a@, b@) == chars_lt(a@.skip(i as int), b@.skip(i as int)),
        decreases la - i,
    {
        if i >= la || i >= lb {
            proof {
                reveal_chars_lt_len(a@.skip(i as int), b@.skip(i as int));
            }
            return la < lb;
        }
        let ca = a.get_char(i);
        let cb = b.get_char(i);
        proof {
            assert(a@.skip(i as int)[0] == a@[i as int]);
            assert(b@.skip(i as int)[0] == b@[i as int]);
            assert(a@.skip(i as int).drop_first() =~= a@.skip(i + 1));
            assert(b@.skip(i as int).drop_first() =~= b@.skip(i + 1));
        }
        if ca != cb {
            return ca < cb;
        }
        i = i + 1;
    }
}

proof fn reveal_chars_lt_len(a: Seq<char>, b: Seq<char>)
    requires
        a.len() == 0 || b.len() == 0,
    ensures
        chars_lt(a, b) == (a.len() < b.len()),
{
}

/// Removes leading and trailing whitespace from a string slice.
pub fn trim(s: &str) -> (r: &str)
    ensures
        r@ == trim_spec(s@),
{
    proof {
        lemma_trim_start_idx(s@);
        lemma_trim_end_idx(s@);
    }
    let n = s.unicode_len();
    let mut i: usize = 0;
    while i < n && is_space_exec(s.get_char(i))
        invariant
            i <= n,
            n == s@.len(),
            forall|k: int| 0 <= k < i ==> is_space(s@[k]),
            i <= trim_start_idx(s@),
        decreases n - i,
    {
        proof {
            lemma_trim_start_first(s@, i + 1);
        }
        i = i + 1;
    }
    proof {
        assert(i == trim_start_idx(s@));
    }
    let mut j: usize = n;
    while j > i && is_space_exec(s.get_char(j - 1))
        invariant
            i <= j <= n,
            n == s@.len(),
            i == trim_start_idx(s@),
            forall|k: int| j <= k < n ==> is_space(s@[k]),
            trim_end_idx(s@) <= j,
        decreases j,
    {
        proof {
            lemma_trim_end_last(s@, j - 1);
        }
        j = j - 1;
    }
    proof {
        if j > i {
            assert(j == trim_end_idx(s@));
        } else {
            assert(trim_spec(s@) =~= Seq::<char>::empty());
        }
    }
    let r = s.substring_char(i, j);
    proof {
        if j <= i {
            assert(r@ =~= trim_spec(s@));
        }
    }
    r
}

/// Exec mirror of [`is_space`].
#[verifier::when_used_as_spec(is_space)]
pub fn is_space_exec(c: char) -> (r: bool)
    ensures
        r == is_space(c),
{
    c == ' ' || c == '\t' || c == '\r'
}

proof fn lemma_trim_start_first(s: Seq<char>, i: int)
    requires
        0 <= i <= s.len(),
        forall|k: int| 0 <= k < i ==> is_space(s[k]),
    ensures
        i <= trim_start_idx(s),
    decreases i,
{
    lemma_trim_start_idx(s);
    if i > 0 && trim_start_idx(s) < i {
        assert(is_space(s[trim_start_idx(s)]));
    }
}

proof fn lemma_trim_end_last(s: Seq<char>, j: int)
    requires
        0 <= j < s.len(),
        forall|k: int| j < k < s.len() ==> is_space(s[k]),
        is_space(s[j]),
    ensures
        trim_end_idx(s) <= j,
{
    lemma_trim_end_idx(s);
    if trim_end_idx(s) > j + 1 {
        assert(is_space(s[trim_end_idx(s) - 1]));
    }
}

/// Position of the first occurrence of `c` in `s`, or `-1` when `c` does
/// not occur.
pub open spec fn find_char(s: Seq<char>, c: char) -> int
    decreases s.len(),
{
    if s.len() == 0 {
        -1
    } else if s[0] == c {
        0
    } else if find_char(s.drop_first(), c) < 0 {
        -1
    } else {
        1 + find_char(s.drop_first(), c)
    }
}

pub proof fn lemma_find_char(s: Seq<char>, c: char)
    ensures
        find_char(s, c) == -1 ==> forall|k: int| 0 <= k < s.len() ==> s[k] != c,
        find_char(s, c) != -1 ==> {
            &&& 0 <= find_char(s, c) < s.len()
            &&& s[find_char(s, c)] == c
            &&& forall|k: int| 0 <= k < find_char(s, c) ==> s[k] != c
        },
    decreases s.len(),
{
    if s.len() > 0 && s[0] != c {
        lemma_find_char(s.drop_first(), c);
        assert forall|k: int| 1 <= k < s.len() implies s.drop_first()[k - 1] == s[k] by {}
    }
}

/// The first occurrence determines `find_char`.
pub proof fn lemma_find_char_at(s: Seq<char>, c: char, i: int)
    requires
        0 <= i < s.len(),
        s[i] == c,
        forall|k: int| 0 <= k < i ==> s[k] != c,
    ensures
        find_char(s, c) == i,
    decreases i,
{
    if i > 0 {
        lemma_find_char_at(s.drop_first(), c, i - 1);
    }
}

/// First position of `c` in `s` at or after `from`.
pub fn find_from(s: &str, from: usize, c: char) -> (r: Option<usize>)
    requires
        from <= s@.len(),
    ensures
        match r {
            Some(i) => {
                &&& from <= i < s@.len()
                &&& s@[i as int] == c
                &&& forall|k: int| from <= k < i ==> s@[k] != c
            },
            None => forall|k: int| from <= k < s@.len() ==> s@[k] != c,
        },
{
    let n = s.unicode_len();
    let mut i: usize = from;
    while i < n
        invariant
            from <= i <= n,
            n == s@.len(),
            forall|k: int| from <= k < i ==> s@[k] != c,
        decreases n - i,
    {
        if s.get_char(i) == c {
            return Some(i);
        }
        i = i + 1;
    }
    None
}

} // verus!
