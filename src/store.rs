//! The profile directory: where the current generation and the numbered
//! generation links are found, and how their descriptors are read.
use vstd::prelude::*;
use crate::bootspec::{decode, decode_spec, texts_view, DecodeError, Generation, GenerationView};
use crate::error::GenError;
use crate::json::{parse_json, parsed_json};

verus! {

/// `name` placed inside the directory `dir`.
pub open spec fn join_spec(dir: Seq<char>, name: Seq<char>) -> Seq<char> {
    if dir.len() == 0 {
        name
    } else if dir.last() == '/' {
        dir + name
    } else {
        dir + seq!['/'] + name
    }
}

/// Places the relative name `name` inside the directory `dir`.
pub fn join(dir: &str, name: &str) -> (r: String)
    ensures
        r@ == join_spec(dir@, name@),
{
    let n: usize = dir.unicode_len();
    if n == 0 {
        return String::from_str(name);
    }
    let mut r = String::from_str(dir);
    if dir.get_char(n - 1) != '/' {
        r.append("/");
        proof {
            reveal_strlit("/");
        }
    }
    r.append(name);
    r
}

/// Whether `c` is an ASCII decimal digit.
pub open spec fn is_digit(c: char) -> bool {
    '0' <= c <= '9'
}

/// The number the decimal digits `d` denote.
pub open spec fn digits_value(d: Seq<char>) -> nat
    decreases d.len(),
{
    if d.len() == 0 {
        0
    } else {
        10 * digits_value(d.drop_last()) + (d.last() as nat - '0' as nat) as nat
    }
}

/// The digits of a generation link name `system-<digits>-link`.
pub open spec fn index_digits(s: Seq<char>) -> Seq<char> {
    s.subrange(7, s.len() - 5)
}

/// Whether `s` is a whole generation link name: `system-`, one or more ASCII
/// digits, `-link`.
pub open spec fn is_generation_name(s: Seq<char>) -> bool {
    &&& s.len() >= 13
    &&& s.subrange(0, 7) == "system-"@
    &&& s.subrange(s.len() - 5, s.len() as int) == "-link"@
    &&& forall|i: int| 0 <= i < index_digits(s).len() ==> is_digit(#[trigger] index_digits(s)[i])
}

/// Whether `lit` occurs in `s` at `start`.
fn occurs_at(s: &str, n: usize, lit: &str, start: usize) -> (r: bool)
    requires
        n == s@.len(),
    ensures
        r == (start + lit@.len() <= s@.len() && s@.subrange(start as int, start + lit@.len()) == lit@),
{
    let m: usize = lit.unicode_len();
    if start > n || m > n - start {
        return false;
    }
    let mut i: usize = 0;
    while i < m
        invariant
            n == s@.len(),
            m == lit@.len(),
            start + m <= n,
            i <= m,
            s@.subrange(start as int, start + i) == lit@.subrange(0, i as int),
        decreases m - i,
    {
        if s.get_char(start + i) != lit.get_char(i) {
            assert(s@.subrange(start as int, start + m)[i as int] != lit@[i as int]);
            return false;
        }
        assert(s@.subrange(start as int, start + i + 1) =~= s@.subrange(start as int, start + i).push(s@[start + i]));
        assert(lit@.subrange(0, i + 1) =~= lit@.subrange(0, i as int).push(lit@[i as int]));
        i = i + 1;
    }
    assert(lit@.subrange(0, m as int) =~= lit@);
    true
}

/// The index of a generation link: `None` for a name that is not
/// `system-<digits>-link` as a whole, else the number the digits denote.
pub fn generation_index(name: &str) -> (r: Result<Option<usize>, GenError>)
    ensures
        !is_generation_name(name@) ==> r matches Ok(None),
        is_generation_name(name@) && digits_value(index_digits(name@)) <= usize::MAX
            ==> r == Ok::<Option<usize>, GenError>(Some(digits_value(index_digits(name@)) as usize)),
        is_generation_name(name@) && digits_value(index_digits(name@)) > usize::MAX
            ==> (r matches Err(GenError::IndexOutOfRange { name: n }) && n@ == name@),
{
    proof {
        reveal_strlit("system-");
        reveal_strlit("-link");
    }
    let n: usize = name.unicode_len();
    if n < 13 || !occurs_at(name, n, "system-", 0) || !occurs_at(name, n, "-link", n - 5) {
        return Ok(None);
    }
    let ghost d = index_digits(name@);
    let end: usize = n - 5;
    let mut i: usize = 7;
    let mut value: usize = 0;
    let mut overflow = false;
    while i < end
        invariant
            n == name@.len(),
            end == n - 5,
            n >= 13,
            7 <= i <= end,
            d == index_digits(name@),
            forall|k: int| 0 <= k < i - 7 ==> is_digit(#[trigger] d[k]),
            !overflow ==> value == digits_value(d.subrange(0, i - 7)),
            overflow ==> digits_value(d.subrange(0, i - 7)) > usize::MAX,
        decreases end - i,
    {
        let c = name.get_char(i);
        if c < '0' || c > '9' {
            assert(d[i - 7] == c);
            return Ok(None);
        }
        let digit: usize = (c as u32 - '0' as u32) as usize;
        let ghost p = d.subrange(0, i + 1 - 7);
        assert(p.drop_last() =~= d.subrange(0, i - 7));
        assert(p.last() == c);
        if !overflow {
            match value.checked_mul(10) {
                Some(t) => match t.checked_add(digit) {
                    Some(v) => {
                        value = v;
                    },
                    None => {
                        overflow = true;
                    },
                },
                None => {
                    overflow = true;
                },
            }
        }
        i = i + 1;
    }
    assert(d.subrange(0, end - 7) =~= d);
    if overflow {
        Err(GenError::IndexOutOfRange { name: String::from_str(name) })
    } else {
        Ok(Some(value))
    }
}

/// The profile directory in which generations are looked up.
pub struct NixGen {
    profiles_dir: String,
}

impl NixGen {
    pub closed spec fn dir(&self) -> Seq<char> {
        self.profiles_dir@
    }

    /// The system's own profile directory, `/nix/var/nix/profiles`.
    pub fn default() -> (r: NixGen)
        ensures
            r.dir() == "/nix/var/nix/profiles"@,
    {
        NixGen { profiles_dir: String::from_str("/nix/var/nix/profiles") }
    }

    /// Generations looked up in `profiles_dir`.
    pub fn new(profiles_dir: &str) -> (r: NixGen)
        ensures
            r.dir() == profiles_dir@,
    {
        NixGen { profiles_dir: String::from_str(profiles_dir) }
    }

    pub fn profiles_dir(&self) -> (r: &str)
        ensures
            r@ == self.dir(),
    {
        self.profiles_dir.as_str()
    }

    /// The link to the current generation: `system` in the profile directory.
    pub fn system_link(&self) -> (r: String)
        ensures
            r@ == join_spec(self.dir(), "system"@),
    {
        join(self.profiles_dir.as_str(), "system")
    }

    /// The path of the directory entry `name` of the profile directory.
    pub fn entry_path(&self, name: &str) -> (r: String)
        ensures
            r@ == join_spec(self.dir(), name@),
    {
        join(self.profiles_dir.as_str(), name)
    }

    /// The current generation's target, given the outcome of resolving
    /// `system_link()`: a failure names the link and its cause.
    pub fn current_target(&self, resolved: Result<String, String>) -> (r: Result<String, GenError>)
        ensures
            resolved is Ok ==> (r matches Ok(t) && t@ == resolved->Ok_0@),
            resolved is Err ==> (r matches Err(GenError::ProfileLink { link, cause })
                && link@ == join_spec(self.dir(), "system"@) && cause@ == resolved->Err_0@),
    {
        match resolved {
            Ok(t) => Ok(t),
            Err(cause) => Err(GenError::ProfileLink { link: self.system_link(), cause }),
        }
    }
}

/// The descriptor of the generation at `path`: `boot.json` inside it when
/// it is a directory, else `path` itself.
pub fn descriptor_path(path: &str, is_dir: bool) -> (r: String)
    ensures
        r@ == (if is_dir { join_spec(path@, "boot.json"@) } else { path@ }),
{
    if is_dir {
        join(path, "boot.json")
    } else {
        String::from_str(path)
    }
}

/// What reading the descriptor text `text` from `path` gives: the decoded
/// generation, a decode error naming `path`, or, for text that is not JSON,
/// a syntax error naming `path`.
pub open spec fn read_outcome(path: Seq<char>, text: Seq<char>, r: Result<Generation, GenError>) -> bool {
    match parsed_json(text) {
        Some(j) => match r {
            Ok(g) => decode_spec(j) == Ok::<GenerationView, DecodeError>(g@),
            Err(GenError::Decode { path: p, error: e }) => p@ == path && decode_spec(j) == Err::<GenerationView, DecodeError>(e),
            _ => false,
        },
        None => r matches Err(GenError::Syntax { path: p, syntax: _ }) && p@ == path,
    }
}

/// Decodes the descriptor text read from `path`.
pub fn parse_descriptor(path: &str, text: &str) -> (r: Result<Generation, GenError>)
    ensures
        read_outcome(path@, text@, r),
{
    match parse_json(text) {
        Err(error) => Err(GenError::Syntax { path: String::from_str(path), syntax: error }),
        Ok(j) => match decode(j) {
            Ok(g) => Ok(g),
            Err(e) => Err(GenError::Decode { path: String::from_str(path), error: e }),
        },
    }
}

/// The generation whose descriptor at `path` was read with the outcome
/// `contents`: a failed read names the path and its cause.
pub fn generation_from_read(path: &str, contents: Result<String, String>) -> (r: Result<Generation, GenError>)
    ensures
        contents is Err ==> (r matches Err(GenError::NotFound { path: p, cause })
            && p@ == path@ && cause@ == contents->Err_0@),
        contents matches Ok(t) ==> read_outcome(path@, t@, r),
{
    match contents {
        Err(cause) => Err(GenError::NotFound { path: String::from_str(path), cause }),
        Ok(text) => parse_descriptor(path, text.as_str()),
    }
}

/// Whether the indices of `s` never decrease.
pub open spec fn sorted_by_index(s: Seq<(usize, Generation)>) -> bool {
    forall|i: int, j: int| 0 <= i < j < s.len() ==> s[i].0 <= s[j].0
}

/// The generations of `s` with index `v`, in their order in `s`.
pub open spec fn with_index(s: Seq<(usize, Generation)>, v: usize) -> Seq<(usize, Generation)>
    decreases s.len(),
{
    if s.len() == 0 {
        s
    } else if s.last().0 == v {
        with_index(s.drop_last(), v).push(s.last())
    } else {
        with_index(s.drop_last(), v)
    }
}

proof fn lemma_with_index_concat(a: Seq<(usize, Generation)>, b: Seq<(usize, Generation)>, v: usize)
    ensures
        with_index(a + b, v) == with_index(a, v) + with_index(b, v),
    decreases b.len(),
{
    if b.len() == 0 {
        assert(a + b =~= a);
        assert(with_index(a, v) + with_index(b, v) =~= with_index(a, v));
    } else {
        lemma_with_index_concat(a, b.drop_last(), v);
        assert((a + b).drop_last() =~= a + b.drop_last());
        assert((a + b).last() == b.last());
        if b.last().0 == v {
            assert(with_index(a, v) + with_index(b.drop_last(), v).push(b.last())
                =~= (with_index(a, v) + with_index(b.drop_last(), v)).push(b.last()));
        }
    }
}

proof fn lemma_with_index_none(s: Seq<(usize, Generation)>, v: usize)
    requires
        forall|i: int| 0 <= i < s.len() ==> (#[trigger] s[i]).0 != v,
    ensures
        with_index(s, v) == Seq::<(usize, Generation)>::empty(),
    decreases s.len(),
{
    if s.len() > 0 {
        assert(s.last() == s[s.len() - 1]);
        lemma_with_index_none(s.drop_last(), v);
    }
}

proof fn lemma_with_index_found(s: Seq<(usize, Generation)>, v: usize)
    requires
        with_index(s, v).len() > 0,
    ensures
        exists|i: int| 0 <= i < s.len() && (#[trigger] s[i]).0 == v,
    decreases s.len(),
{
    if s.last().0 == v {
        assert(s[s.len() - 1].0 == v);
    } else {
        lemma_with_index_found(s.drop_last(), v);
        let i = choose|i: int| 0 <= i < s.drop_last().len() && (#[trigger] s.drop_last()[i]).0 == v;
        assert(s[i] == s.drop_last()[i]);
    }
}

/// Orders generations by index, ascending, whatever order they came in;
/// generations with equal indices keep their relative order.
pub fn sort_by_index(gens: Vec<(usize, Generation)>) -> (r: Vec<(usize, Generation)>)
    ensures
        sorted_by_index(r@),
        forall|v: usize| #[trigger] with_index(r@, v) == with_index(gens@, v),
        r@.to_multiset() == gens@.to_multiset(),
{
    broadcast use vstd::seq_lib::group_to_multiset_ensures;
    let ghost all = gens@;
    let mut rest = gens;
    let mut out: Vec<(usize, Generation)> = Vec::new();
    while rest.len() > 0
        invariant
            out@.len() + rest@.len() == all.len(),
            rest@ == all.subrange(out@.len() as int, all.len() as int),
            sorted_by_index(out@),
            forall|v: usize| #[trigger] with_index(out@, v) == with_index(all.subrange(0, out@.len() as int), v),
            out@.to_multiset() == all.subrange(0, out@.len() as int).to_multiset(),
        decreases rest.len(),
    {
        let ghost k: int = out@.len() as int;
        let x = rest.remove(0);
        let mut pos: usize = 0;
        while pos < out.len() && out[pos].0 <= x.0
            invariant
                pos <= out@.len(),
                forall|i: int| 0 <= i < pos ==> (#[trigger] out@[i]).0 <= x.0,
            decreases out.len() - pos,
        {
            pos = pos + 1;
        }
        let ghost before = out@;
        out.insert(pos, x);
        proof {
            let pre = all.subrange(0, k);
            let post = all.subrange(0, k + 1);
            assert(x == all[k]);
            assert(post =~= pre.push(x));
            assert(post.drop_last() =~= pre);
            let left = before.subrange(0, pos as int);
            let right = before.subrange(pos as int, before.len() as int);
            assert(before =~= left + right);
            assert(out@ =~= left + seq![x] + right);
            assert(forall|i: int| 0 <= i < right.len() ==> (#[trigger] right[i]).0 > x.0) by {
                assert forall|i: int| 0 <= i < right.len() implies (#[trigger] right[i]).0 > x.0 by {
                    assert(right[i] == before[pos + i]);
                    if pos < before.len() {
                        assert(before[pos as int].0 > x.0);
                    }
                }
            }
            assert forall|i: int, j: int| 0 <= i < j < out@.len() implies out@[i].0 <= out@[j].0 by {
                if j < pos {
                } else if j == pos {
                } else if i < pos {
                    assert(out@[j] == before[j - 1]);
                    assert(out@[i] == before[i]);
                } else if i == pos {
                    assert(out@[j] == right[j - pos - 1]);
                } else {
                    assert(out@[j] == before[j - 1]);
                    assert(out@[i] == before[i - 1]);
                }
            }
            assert forall|v: usize| #[trigger] with_index(out@, v) == with_index(post, v) by {
                lemma_with_index_concat(left, right, v);
                lemma_with_index_concat(left + seq![x], right, v);
                lemma_with_index_concat(left, seq![x], v);
                let e = seq![x].drop_last();
                assert(e =~= Seq::<(usize, Generation)>::empty());
                assert(with_index(e, v) =~= e);
                assert(seq![x].last() == x);
                if v == x.0 {
                    assert(with_index(seq![x], v) =~= seq![x]);
                    lemma_with_index_none(right, v);
                    assert(with_index(out@, v) =~= with_index(before, v).push(x));
                } else {
                    assert(with_index(seq![x], v) =~= Seq::<(usize, Generation)>::empty());
                    assert(with_index(out@, v) =~= with_index(before, v));
                }
            }
            vstd::seq_lib::to_multiset_insert(before, pos as int, x);
            vstd::seq_lib::to_multiset_build(pre, x);
            assert(rest@ =~= all.subrange(k + 1, all.len() as int));
        }
    }
    assert(all.subrange(0, all.len() as int) =~= all);
    out
}

/// When the input's indices are pairwise distinct, the sorted generations
/// are in strictly ascending order of index.
pub proof fn lemma_sorted_strictly_ascending(gens: Seq<(usize, Generation)>, r: Seq<(usize, Generation)>)
    requires
        sorted_by_index(r),
        forall|v: usize| #[trigger] with_index(r, v) == with_index(gens, v),
        forall|i: int, j: int| 0 <= i < j < gens.len() ==> gens[i].0 != gens[j].0,
    ensures
        forall|i: int, j: int| 0 <= i < j < r.len() ==> r[i].0 < r[j].0,
{
    assert forall|i: int, j: int| 0 <= i < j < r.len() implies r[i].0 < r[j].0 by {
        if r[i].0 == r[j].0 {
            let v = r[i].0;
            lemma_two_with_index(r, i, j);
            lemma_distinct_with_index(gens, v);
            assert(with_index(r, v) == with_index(gens, v));
        }
    }
}

proof fn lemma_two_with_index(s: Seq<(usize, Generation)>, i: int, j: int)
    requires
        0 <= i < j < s.len(),
        s[i].0 == s[j].0,
    ensures
        with_index(s, s[i].0).len() >= 2,
    decreases s.len(),
{
    let v = s[i].0;
    if j < s.len() - 1 {
        assert(s.drop_last()[i] == s[i] && s.drop_last()[j] == s[j]);
        lemma_two_with_index(s.drop_last(), i, j);
    } else {
        assert(s.last() == s[j]);
        assert(s.drop_last()[i] == s[i]);
        lemma_one_with_index(s.drop_last(), i);
    }
}

proof fn lemma_one_with_index(s: Seq<(usize, Generation)>, i: int)
    requires
        0 <= i < s.len(),
    ensures
        with_index(s, s[i].0).len() >= 1,
    decreases s.len(),
{
    if i < s.len() - 1 {
        assert(s.drop_last()[i] == s[i]);
        lemma_one_with_index(s.drop_last(), i);
    }
}

proof fn lemma_distinct_with_index(s: Seq<(usize, Generation)>, v: usize)
    requires
        forall|i: int, j: int| 0 <= i < j < s.len() ==> s[i].0 != s[j].0,
    ensures
        with_index(s, v).len() <= 1,
    decreases s.len(),
{
    if s.len() > 0 {
        lemma_distinct_with_index(s.drop_last(), v);
        if s.last().0 == v && with_index(s.drop_last(), v).len() > 0 {
            lemma_with_index_found(s.drop_last(), v);
            let i = choose|i: int| 0 <= i < s.drop_last().len() && (#[trigger] s.drop_last()[i]).0 == v;
            assert(s[i] == s.drop_last()[i]);
            assert(s[s.len() - 1] == s.last());
        }
    }
}

proof fn lemma_distinct_single(s: Seq<(usize, Generation)>, i: int)
    requires
        0 <= i < s.len(),
        forall|a: int, b: int| 0 <= a < b < s.len() ==> s[a].0 != s[b].0,
    ensures
        with_index(s, s[i].0) == seq![s[i]],
    decreases s.len(),
{
    let v = s[i].0;
    if i == s.len() - 1 {
        assert forall|k: int| 0 <= k < s.drop_last().len() implies (#[trigger] s.drop_last()[k]).0 != v by {
            assert(s.drop_last()[k] == s[k]);
        }
        lemma_with_index_none(s.drop_last(), v);
        assert(Seq::<(usize, Generation)>::empty().push(s[i]) =~= seq![s[i]]);
    } else {
        assert(s.drop_last()[i] == s[i]);
        assert(s.last() == s[s.len() - 1]);
        lemma_distinct_single(s.drop_last(), i);
    }
}

proof fn lemma_same_elements_with_index(g1: Seq<(usize, Generation)>, g2: Seq<(usize, Generation)>, v: usize)
    requires
        g1.to_multiset() == g2.to_multiset(),
        forall|a: int, b: int| 0 <= a < b < g1.len() ==> g1[a].0 != g1[b].0,
        forall|a: int, b: int| 0 <= a < b < g2.len() ==> g2[a].0 != g2[b].0,
    ensures
        with_index(g1, v) == with_index(g2, v),
{
    if exists|i: int| 0 <= i < g1.len() && (#[trigger] g1[i]).0 == v {
        let i = choose|i: int| 0 <= i < g1.len() && (#[trigger] g1[i]).0 == v;
        vstd::seq_lib::to_multiset_contains(g1, g1[i]);
        vstd::seq_lib::to_multiset_contains(g2, g1[i]);
        assert(g1.contains(g1[i]));
        let j = choose|j: int| 0 <= j < g2.len() && g2[j] == g1[i];
        lemma_distinct_single(g1, i);
        lemma_distinct_single(g2, j);
    } else if exists|j: int| 0 <= j < g2.len() && (#[trigger] g2[j]).0 == v {
        let j = choose|j: int| 0 <= j < g2.len() && (#[trigger] g2[j]).0 == v;
        vstd::seq_lib::to_multiset_contains(g1, g2[j]);
        vstd::seq_lib::to_multiset_contains(g2, g2[j]);
        assert(g2.contains(g2[j]));
        let i = choose|i: int| 0 <= i < g1.len() && g1[i] == g2[j];
        assert(g1[i].0 == v);
    } else {
        lemma_with_index_none(g1, v);
        lemma_with_index_none(g2, v);
    }
}

proof fn lemma_sorted_determined(r1: Seq<(usize, Generation)>, r2: Seq<(usize, Generation)>)
    requires
        sorted_by_index(r1),
        sorted_by_index(r2),
        forall|v: usize| #[trigger] with_index(r1, v) == with_index(r2, v),
    ensures
        r1 == r2,
    decreases r1.len() + r2.len(),
{
    if r1.len() == 0 && r2.len() > 0 {
        assert(with_index(r2, r2.last().0).len() > 0);
        assert(with_index(r1, r2.last().0).len() == 0);
    } else if r2.len() == 0 && r1.len() > 0 {
        assert(with_index(r1, r1.last().0).len() > 0);
        assert(with_index(r2, r1.last().0).len() == 0);
    } else if r1.len() > 0 {
        let m1 = r1.last().0;
        let m2 = r2.last().0;
        assert(with_index(r1, m1).len() > 0);
        lemma_with_index_found(r2, m1);
        assert(with_index(r2, m2).len() > 0);
        lemma_with_index_found(r1, m2);
        assert(m1 <= m2) by {
            let j = choose|j: int| 0 <= j < r2.len() && (#[trigger] r2[j]).0 == m1;
            assert(r2[j].0 <= r2[r2.len() - 1].0);
        }
        assert(m2 <= m1) by {
            let j = choose|j: int| 0 <= j < r1.len() && (#[trigger] r1[j]).0 == m2;
            assert(r1[j].0 <= r1[r1.len() - 1].0);
        }
        assert(with_index(r1, m1).last() == r1.last());
        assert(with_index(r2, m1).last() == r2.last());
        assert forall|v: usize| #[trigger] with_index(r1.drop_last(), v) == with_index(r2.drop_last(), v) by {
            assert(with_index(r1, v) == with_index(r2, v));
            if v == m1 {
                assert(with_index(r1.drop_last(), v) =~= with_index(r1, v).drop_last());
                assert(with_index(r2.drop_last(), v) =~= with_index(r2, v).drop_last());
            }
        }
        assert(sorted_by_index(r1.drop_last()));
        assert(sorted_by_index(r2.drop_last()));
        lemma_sorted_determined(r1.drop_last(), r2.drop_last());
        assert(r1 =~= r1.drop_last().push(r1.last()));
        assert(r2 =~= r2.drop_last().push(r2.last()));
    }
}

/// Two orderings of the same generations, with pairwise distinct indices,
/// sort to the same sequence: the listing does not depend on the order in
/// which the directory was read.
pub proof fn lemma_sort_ignores_input_order(
    g1: Seq<(usize, Generation)>,
    g2: Seq<(usize, Generation)>,
    r1: Seq<(usize, Generation)>,
    r2: Seq<(usize, Generation)>,
)
    requires
        g1.to_multiset() == g2.to_multiset(),
        forall|a: int, b: int| 0 <= a < b < g1.len() ==> g1[a].0 != g1[b].0,
        forall|a: int, b: int| 0 <= a < b < g2.len() ==> g2[a].0 != g2[b].0,
        sorted_by_index(r1),
        sorted_by_index(r2),
        forall|v: usize| #[trigger] with_index(r1, v) == with_index(g1, v),
        forall|v: usize| #[trigger] with_index(r2, v) == with_index(g2, v),
    ensures
        r1 == r2,
{
    assert forall|v: usize| #[trigger] with_index(r1, v) == with_index(r2, v) by {
        lemma_same_elements_with_index(g1, g2, v);
    }
    lemma_sorted_determined(r1, r2);
}

/// Whether `name` is a generation link name whose index fits in `usize`.
pub open spec fn fits(name: Seq<char>) -> bool {
    digits_value(index_digits(name)) <= usize::MAX
}

/// The generation links among `names`, in order, each with its index;
/// other names are left out.
pub open spec fn selected(names: Seq<Seq<char>>) -> Seq<(nat, Seq<char>)>
    decreases names.len(),
{
    if names.len() == 0 {
        Seq::empty()
    } else {
        let rest = selected(names.drop_last());
        let last = names.last();
        if is_generation_name(last) {
            rest.push((digits_value(index_digits(last)), last))
        } else {
            rest
        }
    }
}

pub open spec fn entries_view(v: Seq<(usize, String)>) -> Seq<(nat, Seq<char>)> {
    v.map_values(|e: (usize, String)| (e.0 as nat, e.1@))
}

/// Whether `e` is a whole generation link name of `names` with the number
/// its digits denote.
pub open spec fn from_matching(names: Seq<Seq<char>>, e: (nat, Seq<char>)) -> bool {
    exists|i: int| 0 <= i < names.len() && is_generation_name(#[trigger] names[i])
        && e == (digits_value(index_digits(names[i])), names[i])
}

/// Each selected pair is a whole generation link name from `names` with
/// the number its digits denote.
pub proof fn lemma_selected_from_matching(names: Seq<Seq<char>>)
    ensures
        forall|k: int| 0 <= k < selected(names).len() ==> from_matching(names, #[trigger] selected(names)[k]),
    decreases names.len(),
{
    if names.len() > 0 {
        let init = names.drop_last();
        lemma_selected_from_matching(init);
        assert forall|k: int| 0 <= k < selected(names).len() implies from_matching(names, #[trigger] selected(names)[k]) by {
            if k < selected(init).len() {
                assert(from_matching(init, selected(init)[k]));
                let i = choose|i: int| 0 <= i < init.len() && is_generation_name(#[trigger] init[i])
                    && selected(init)[k] == (digits_value(index_digits(init[i])), init[i]);
                assert(names[i] == init[i]);
            } else {
                assert(names[names.len() - 1] == names.last());
            }
        }
    }
}

/// Picks the generation links out of the entry names of a profile
/// directory, in order, each with its index. Fails on the first link whose
/// index does not fit in `usize`.
pub fn select_generations(names: &Vec<String>) -> (r: Result<Vec<(usize, String)>, GenError>)
    ensures
        (forall|i: int| 0 <= i < names@.len() && is_generation_name(#[trigger] names@[i]@) ==> fits(names@[i]@))
            ==> (r matches Ok(v) && entries_view(v@) == selected(texts_view(names@))),
        (exists|i: int| 0 <= i < names@.len() && is_generation_name(#[trigger] names@[i]@) && !fits(names@[i]@))
            ==> r is Err,
        r matches Err(e) ==> (e matches GenError::IndexOutOfRange { name } && exists|i: int|
            0 <= i < names@.len() && name@ == names@[i]@ && is_generation_name(names@[i]@) && !fits(names@[i]@)),
{
    let mut out: Vec<(usize, String)> = Vec::new();
    let mut i: usize = 0;
    while i < names.len()
        invariant
            i <= names@.len(),
            entries_view(out@) == selected(texts_view(names@.subrange(0, i as int))),
            forall|k: int| 0 <= k < i && is_generation_name(#[trigger] names@[k]@) ==> fits(names@[k]@),
        decreases names.len() - i,
    {
        let ghost prev = out@;
        let ghost pre = texts_view(names@.subrange(0, i as int));
        let ghost cur = texts_view(names@.subrange(0, i + 1));
        assert(cur.drop_last() =~= pre);
        assert(cur.last() == names@[i as int]@);
        match generation_index(names[i].as_str()) {
            Ok(None) => {},
            Ok(Some(index)) => {
                out.push((index, names[i].clone()));
                assert(entries_view(out@) =~= entries_view(prev).push((index as nat, names@[i as int]@)));
            },
            Err(e) => {
                return Err(e);
            },
        }
        i = i + 1;
    }
    assert(names@.subrange(0, names@.len() as int) =~= names@);
    Ok(out)
}

} // verus!
