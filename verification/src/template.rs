//! The placeholder syntax of executable templates: `{{ identifier }}` with
//! optional interior whitespace, scanned left to right; a `|` inside the
//! braces marks the dynamic-parameter operation and a `params.` prefix a
//! context lookup. This module extracts the ordered, de-duplicated simple
//! placeholder identifiers a template references.

use vstd::prelude::*;
use crate::text::{chars_to_string, is_space, spec_is_space, str_to_chars};

verus! {

/// Index of the first `}}` at or after `i`, or `-1` if there is none.
pub open spec fn spec_find_close(s: Seq<char>, i: int) -> int
    decreases s.len() - i,
{
    if i < 0 || i + 2 > s.len() {
        -1
    } else if s[i] == '}' && s[i + 1] == '}' {
        i
    } else {
        spec_find_close(s, i + 1)
    }
}

proof fn lemma_find_close_props(s: Seq<char>, i: int)
    requires
        0 <= i,
    ensures
        spec_find_close(s, i) == -1 ==> forall|j: int|
            i <= j && j + 2 <= s.len() ==> !(#[trigger] s[j] == '}' && s[j + 1] == '}'),
        spec_find_close(s, i) != -1 ==> i <= spec_find_close(s, i) && spec_find_close(s, i) + 2
            <= s.len() && s[spec_find_close(s, i)] == '}' && s[spec_find_close(s, i) + 1] == '}',
        spec_find_close(s, i) != -1 ==> forall|j: int|
            i <= j < spec_find_close(s, i) ==> !(#[trigger] s[j] == '}' && s[j + 1] == '}'),
    decreases s.len() - i,
{
    if i + 2 <= s.len() && !(s[i] == '}' && s[i + 1] == '}') {
        lemma_find_close_props(s, i + 1);
    }
}

/// `s` without leading whitespace.
pub open spec fn spec_trim_start(s: Seq<char>) -> Seq<char>
    decreases s.len(),
{
    if s.len() > 0 && spec_is_space(s[0]) {
        spec_trim_start(s.drop_first())
    } else {
        s
    }
}

/// `s` without trailing whitespace.
pub open spec fn spec_trim_end(s: Seq<char>) -> Seq<char>
    decreases s.len(),
{
    if s.len() > 0 && spec_is_space(s.last()) {
        spec_trim_end(s.drop_last())
    } else {
        s
    }
}

/// `s` without leading or trailing whitespace.
pub open spec fn spec_trim(s: Seq<char>) -> Seq<char> {
    spec_trim_end(spec_trim_start(s))
}

proof fn lemma_trim_start_is_skip(s: Seq<char>, k: int)
    requires
        0 <= k <= s.len(),
        forall|j: int| 0 <= j < k ==> spec_is_space(s[j]),
        k < s.len() ==> !spec_is_space(s[k]),
    ensures
        spec_trim_start(s) == s.skip(k),
    decreases k,
{
    if k == 0 {
        assert(s.skip(0) =~= s);
    } else {
        assert(spec_is_space(s[0]));
        lemma_trim_start_is_skip(s.drop_first(), k - 1);
        assert(s.drop_first().skip(k - 1) =~= s.skip(k));
    }
}

proof fn lemma_trim_end_is_take(s: Seq<char>, k: int)
    requires
        0 <= k <= s.len(),
        forall|j: int| k <= j < s.len() ==> spec_is_space(s[j]),
        k > 0 ==> !spec_is_space(s[k - 1]),
    ensures
        spec_trim_end(s) == s.take(k),
    decreases s.len() - k,
{
    if k == s.len() {
        assert(s.take(k) =~= s);
    } else {
        assert(spec_is_space(s.last()));
        lemma_trim_end_is_take(s.drop_last(), k);
        assert(s.drop_last().take(k) =~= s.take(k));
    }
}

/// The characters of `chars` between `lo` and `hi`, trimmed of surrounding
/// whitespace.
pub fn trim_range(chars: &Vec<char>, lo: usize, hi: usize) -> (r: Vec<char>)
    requires
        lo <= hi <= chars@.len(),
    ensures
        r@ == spec_trim(chars@.subrange(lo as int, hi as int)),
{
    let ghost s = chars@.subrange(lo as int, hi as int);
    let mut a: usize = lo;
    while a < hi && is_space(chars[a])
        invariant
            lo <= a <= hi <= chars@.len(),
            forall|j: int| lo <= j < a ==> spec_is_space(chars@[j]),
        decreases hi - a,
    {
        a = a + 1;
    }
    let mut b: usize = hi;
    while b > a && is_space(chars[b - 1])
        invariant
            a <= b <= hi <= chars@.len(),
            forall|j: int| b <= j < hi ==> spec_is_space(chars@[j]),
        decreases b - a,
    {
        b = b - 1;
    }
    proof {
        lemma_trim_start_is_skip(s, a - lo);
        assert(s.skip(a - lo) =~= chars@.subrange(a as int, hi as int));
        lemma_trim_end_is_take(s.skip(a - lo), b - a);
        assert(s.skip(a - lo).take(b - a) =~= chars@.subrange(a as int, b as int));
    }
    let mut out: Vec<char> = Vec::new();
    let mut i: usize = a;
    while i < b
        invariant
            a <= i <= b <= chars@.len(),
            out@ =~= chars@.subrange(a as int, i as int),
        decreases b - i,
    {
        out.push(chars[i]);
        proof {
            assert(out@ =~= chars@.subrange(a as int, i + 1 as int));
        }
        i = i + 1;
    }
    proof {
        assert(out@ =~= chars@.subrange(a as int, b as int));
    }
    out
}

/// The trimmed contents of every `{{ ... }}` placeholder of `s`, in order
/// of occurrence. An opening brace pair with no matching close ends the
/// scan.
pub open spec fn spec_raw_placeholders(s: Seq<char>) -> Seq<Seq<char>>
    decreases s.len(),
{
    if s.len() < 2 {
        Seq::empty()
    } else if s[0] == '{' && s[1] == '{' {
        let c = spec_find_close(s, 2);
        if c < 2 || c + 2 > s.len() {
            Seq::empty()
        } else {
            seq![spec_trim(s.subrange(2, c))] + spec_raw_placeholders(s.skip(c + 2))
        }
    } else {
        spec_raw_placeholders(s.drop_first())
    }
}

/// The members of `raw` that are simple placeholders: no `|`, so no
/// dynamic-parameter operation.
pub open spec fn spec_simple_only(raw: Seq<Seq<char>>) -> Seq<Seq<char>>
    decreases raw.len(),
{
    if raw.len() == 0 {
        Seq::empty()
    } else {
        let rest = spec_simple_only(raw.drop_last());
        if raw.last().contains('|') {
            rest
        } else {
            rest.push(raw.last())
        }
    }
}

/// `s` with every repetition of an earlier member removed: each member
/// kept at its first occurrence.
pub open spec fn spec_dedup(s: Seq<Seq<char>>) -> Seq<Seq<char>>
    decreases s.len(),
{
    if s.len() == 0 {
        Seq::empty()
    } else {
        let rest = spec_dedup(s.drop_last());
        if rest.contains(s.last()) {
            rest
        } else {
            rest.push(s.last())
        }
    }
}

/// The ordered, de-duplicated simple placeholder identifiers referenced by
/// a template.
pub open spec fn spec_placeholders(s: Seq<char>) -> Seq<Seq<char>> {
    spec_dedup(spec_simple_only(spec_raw_placeholders(s)))
}

/// Whether `v` holds the pipe character that marks the dynamic-parameter
/// operation.
fn has_pipe(v: &Vec<char>) -> (r: bool)
    ensures
        r == v@.contains('|'),
{
    let mut i: usize = 0;
    while i < v.len()
        invariant
            i <= v@.len(),
            forall|j: int| 0 <= j < i ==> v@[j] != '|',
        decreases v@.len() - i,
    {
        if v[i] == '|' {
            return true;
        }
        i = i + 1;
    }
    false
}

/// Whether two character vectors hold the same characters.
pub fn chars_eq(a: &Vec<char>, b: &Vec<char>) -> (r: bool)
    ensures
        r == (a@ == b@),
{
    if a.len() != b.len() {
        return false;
    }
    let mut i: usize = 0;
    while i < a.len()
        invariant
            a@.len() == b@.len(),
            i <= a@.len(),
            forall|j: int| 0 <= j < i ==> a@[j] == b@[j],
        decreases a@.len() - i,
    {
        if a[i] != b[i] {
            return false;
        }
        i = i + 1;
    }
    proof {
        assert(a@ =~= b@);
    }
    true
}

/// Whether the list already holds these characters.
pub fn list_contains(list: &Vec<Vec<char>>, v: &Vec<char>) -> (r: bool)
    ensures
        r == list.deep_view().contains(v@),
{
    let mut i: usize = 0;
    while i < list.len()
        invariant
            i <= list@.len(),
            forall|j: int| 0 <= j < i ==> list.deep_view()[j] != v@,
        decreases list@.len() - i,
    {
        proof {
            assert(list.deep_view()[i as int] =~= list@[i as int]@);
        }
        if chars_eq(&list[i], v) {
            return true;
        }
        i = i + 1;
    }
    false
}

/// Index of the first `}}` at or after `from`, if any.
pub fn find_close(chars: &Vec<char>, from: usize) -> (r: Option<usize>)
    requires
        from <= chars@.len(),
    ensures
        match r {
            Some(j) => spec_find_close(chars@, from as int) == j && from <= j && j + 2
                <= chars@.len(),
            None => spec_find_close(chars@, from as int) == -1,
        },
{
    let n = chars.len();
    let mut j: usize = from;
    while n >= 2 && j <= n - 2
        invariant
            n == chars@.len(),
            from <= j <= n,
            forall|k: int| from <= k < j ==> !(#[trigger] chars@[k] == '}' && chars@[k + 1] == '}'),
            spec_find_close(chars@, from as int) == spec_find_close(chars@, j as int),
        decreases n - j,
    {
        if chars[j] == '}' && chars[j + 1] == '}' {
            return Some(j);
        }
        j = j + 1;
    }
    None
}

/// Extract the ordered, de-duplicated set of simple placeholder identifiers
/// referenced in a template: the trimmed contents of each `{{ ... }}` pair,
/// skipping dynamic-parameter placeholders (those with a `|` inside).
pub fn extract_placeholders(template: &str) -> (r: Vec<String>)
    ensures
        r.deep_view() == spec_placeholders(template@),
{
    let chars = str_to_chars(template);
    let n = chars.len();
    let mut found: Vec<Vec<char>> = Vec::new();
    let ghost mut raws: Seq<Seq<char>> = Seq::empty();
    proof {
        assert(raws + spec_raw_placeholders(chars@.skip(0)) =~= spec_raw_placeholders(
            chars@.skip(0),
        ));
        assert(chars@.skip(0) =~= chars@);
    }
    let mut i: usize = 0;
    while i < n
        invariant
            n == chars@.len(),
            i <= n,
            spec_raw_placeholders(chars@) == raws + spec_raw_placeholders(chars@.skip(i as int)),
            found.deep_view() == spec_dedup(spec_simple_only(raws)),
        decreases n - i,
    {
        if i + 1 < n && chars[i] == '{' && chars[i + 1] == '{' {
            match find_close(&chars, i + 2) {
                Some(j) => {
                    let content = trim_range(&chars, i + 2, j);
                    let ghost prev = raws;
                    let ghost t = spec_trim(chars@.subrange(i + 2 as int, j as int));
                    proof {
                        lemma_raw_placeholders_step_open(chars@, i as int, j as int);
                        assert(prev + (seq![t] + spec_raw_placeholders(chars@.skip(j + 2 as int)))
                            =~= prev.push(t) + spec_raw_placeholders(chars@.skip(j + 2 as int)));
                        raws = prev.push(t);
                        assert(raws.drop_last() =~= prev);
                        if t.contains('|') {
                            assert(spec_simple_only(raws) == spec_simple_only(prev));
                        } else {
                            assert(spec_simple_only(raws) == spec_simple_only(prev).push(t));
                            assert(spec_simple_only(prev).push(t).drop_last()
                                =~= spec_simple_only(prev));
                        }
                    }
                    if !has_pipe(&content) {
                        if !list_contains(&found, &content) {
                            found.push(content);
                            proof {
                                assert(found@[found@.len() - 1].deep_view() =~= t);
                                assert(found.deep_view() =~= spec_dedup(
                                    spec_simple_only(prev),
                                ).push(t));
                            }
                        }
                    }
                    i = j + 2;
                },
                None => {
                    proof {
                        lemma_raw_placeholders_step_noclose(chars@, i as int);
                        assert(raws + spec_raw_placeholders(chars@.skip(i as int)) =~= raws
                            + spec_raw_placeholders(chars@.skip(n as int)));
                    }
                    i = n;
                },
            }
        } else {
            proof {
                lemma_raw_placeholders_step_literal(chars@, i as int);
            }
            i = i + 1;
        }
    }
    proof {
        assert(chars@.skip(n as int) =~= Seq::<char>::empty());
        assert(raws + spec_raw_placeholders(chars@.skip(n as int)) =~= raws);
        assert(raws == spec_raw_placeholders(chars@));
    }
    let mut r: Vec<String> = Vec::new();
    let mut k: usize = 0;
    while k < found.len()
        invariant
            k <= found@.len(),
            r@.len() == k,
            forall|j: int| 0 <= j < k ==> r@[j]@ == found.deep_view()[j],
        decreases found@.len() - k,
    {
        proof {
            assert(found.deep_view()[k as int] =~= found@[k as int]@);
        }
        r.push(chars_to_string(&found[k]));
        k = k + 1;
    }
    proof {
        assert(r.deep_view() =~= found.deep_view());
    }
    r
}

/// De-duplication invents no member: whatever the de-duplicated list
/// holds, the list it came from held.
pub proof fn lemma_dedup_contains(s: Seq<Seq<char>>, name: Seq<char>)
    requires
        spec_dedup(s).contains(name),
    ensures
        s.contains(name),
    decreases s.len(),
{
    if s.len() > 0 {
        let rest = spec_dedup(s.drop_last());
        if s.last() == name {
            assert(s[s.len() - 1] == name);
        } else {
            if rest.contains(name) {
                lemma_dedup_contains(s.drop_last(), name);
                let i = choose|i: int| 0 <= i < s.drop_last().len() && s.drop_last()[i] == name;
                assert(s[i] == name);
            } else {
                assert(spec_dedup(s) == rest.push(s.last()));
                let i = choose|i: int| 0 <= i < spec_dedup(s).len() && spec_dedup(s)[i] == name;
                assert(rest.push(s.last())[i] == name);
                assert(i < rest.len() ==> rest.contains(name));
            }
        }
    }
}

/// The simple-placeholder filter invents no member, and keeps only
/// contents without the dynamic-operation pipe.
pub proof fn lemma_simple_only_contains(raw: Seq<Seq<char>>, name: Seq<char>)
    requires
        spec_simple_only(raw).contains(name),
    ensures
        raw.contains(name),
        !name.contains('|'),
    decreases raw.len(),
{
    if raw.len() > 0 {
        let rest = spec_simple_only(raw.drop_last());
        if raw.last().contains('|') {
            lemma_simple_only_contains(raw.drop_last(), name);
            let i = choose|i: int| 0 <= i < raw.drop_last().len() && raw.drop_last()[i] == name;
            assert(raw[i] == name);
        } else {
            let i = choose|i: int|
                0 <= i < spec_simple_only(raw).len() && spec_simple_only(raw)[i] == name;
            assert(rest.push(raw.last())[i] == name);
            if i < rest.len() {
                lemma_simple_only_contains(raw.drop_last(), name);
                let j = choose|j: int| 0 <= j < raw.drop_last().len() && raw.drop_last()[j] == name;
                assert(raw[j] == name);
            } else {
                assert(raw[raw.len() - 1] == name);
            }
        }
    }
}

/// Every extracted placeholder is simple: extraction never yields a
/// dynamic-operation content, so the resolver never treats one as a
/// parameter name.
pub proof fn lemma_placeholders_are_simple(s: Seq<char>, name: Seq<char>)
    requires
        spec_placeholders(s).contains(name),
    ensures
        !name.contains('|'),
{
    lemma_dedup_contains(spec_simple_only(spec_raw_placeholders(s)), name);
    lemma_simple_only_contains(spec_raw_placeholders(s), name);
}

pub proof fn lemma_raw_placeholders_step_literal(s: Seq<char>, i: int)
    requires
        0 <= i < s.len(),
        !(i + 1 < s.len() && s[i] == '{' && s[i + 1] == '{'),
    ensures
        spec_raw_placeholders(s.skip(i)) == spec_raw_placeholders(s.skip(i + 1)),
{
    assert(s.skip(i).drop_first() =~= s.skip(i + 1));
    if s.skip(i).len() < 2 {
        assert(s.skip(i + 1).len() < 2);
    }
}

pub proof fn lemma_raw_placeholders_step_noclose(s: Seq<char>, i: int)
    requires
        0 <= i,
        i + 1 < s.len(),
        s[i] == '{',
        s[i + 1] == '{',
        spec_find_close(s, i + 2) == -1,
    ensures
        spec_raw_placeholders(s.skip(i)) == Seq::<Seq<char>>::empty(),
{
    lemma_find_close_props(s, i + 2);
    lemma_find_close_shift(s, i, i + 2);
    assert(spec_find_close(s.skip(i), 2) == -1);
}

pub proof fn lemma_raw_placeholders_step_open(s: Seq<char>, i: int, j: int)
    requires
        0 <= i,
        i + 1 < s.len(),
        s[i] == '{',
        s[i + 1] == '{',
        spec_find_close(s, i + 2) == j,
        i + 2 <= j,
        j + 2 <= s.len(),
    ensures
        spec_raw_placeholders(s.skip(i)) == seq![spec_trim(s.subrange(i + 2, j))]
            + spec_raw_placeholders(s.skip(j + 2)),
{
    lemma_find_close_shift(s, i, i + 2);
    assert(spec_find_close(s.skip(i), 2) == j - i);
    assert(s.skip(i).subrange(2, j - i) =~= s.subrange(i + 2, j));
    assert(s.skip(i).skip(j - i + 2) =~= s.skip(j + 2));
}

/// Shifting the scan for `}}` by a prefix: searching the suffix `s.skip(b)`
/// from `i - b` finds the same close as searching `s` from `i`.
pub proof fn lemma_find_close_shift(s: Seq<char>, b: int, i: int)
    requires
        0 <= b <= i <= s.len(),
    ensures
        spec_find_close(s, i) == -1 ==> spec_find_close(s.skip(b), i - b) == -1,
        spec_find_close(s, i) != -1 ==> spec_find_close(s.skip(b), i - b) == spec_find_close(s, i)
            - b,
    decreases s.len() - i,
{
    if i + 2 > s.len() {
    } else if s[i] == '}' && s[i + 1] == '}' {
        assert(s.skip(b)[i - b] == s[i]);
        assert(s.skip(b)[i - b + 1] == s[i + 1]);
    } else {
        assert(s.skip(b)[i - b] == s[i]);
        assert(s.skip(b)[i - b + 1] == s[i + 1]);
        lemma_find_close_shift(s, b, i + 1);
    }
}

} // verus!
