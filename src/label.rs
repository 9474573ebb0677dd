//! Labels for generations: a random name, the local time and the status of
//! the source repository.
use vstd::prelude::*;
use crate::error::GenError;
use crate::repo::{git_status, status_spec};

verus! {

/// Where the repository for a label is looked for.
#[derive(Debug)]
pub enum RepoRootConfig {
    /// Upward from the working directory.
    Discover,
    /// At this path, as given.
    Path(String),
}

impl RepoRootConfig {
    /// `Path` for a given path, `Discover` without one.
    pub fn from_option(x: Option<String>) -> (r: Self)
        ensures
            x is None ==> r is Discover,
            x is Some ==> (r matches RepoRootConfig::Path(p) && p == x->Some_0),
    {
        match x {
            Some(p) => RepoRootConfig::Path(p),
            None => RepoRootConfig::Discover,
        }
    }
}

/// A label: name, timestamp and status joined by `-`.
pub open spec fn label_spec(name: Seq<char>, timestamp: Seq<char>, status: Seq<char>) -> Seq<char> {
    name + "-"@ + timestamp + "-"@ + status
}

/// Joins a name, a timestamp and a status string into a label.
pub fn compose_label(name: &str, timestamp: &str, status: &str) -> (r: String)
    ensures
        r@ == label_spec(name@, timestamp@, status@),
{
    let mut r = String::from_str(name);
    r.append("-");
    r.append(timestamp);
    r.append("-");
    r.append(status);
    r
}

/// A word of a generated name: not empty, and without `-`.
pub open spec fn is_word(w: Seq<char>) -> bool {
    w.len() > 0 && !w.contains('-')
}

/// Two words joined by `-`.
pub open spec fn is_two_word_name(n: Seq<char>) -> bool {
    exists|w1: Seq<char>, w2: Seq<char>| is_word(w1) && is_word(w2) && n == w1 + "-"@ + w2
}

/// Relies on `petname::petname`: an adjective and a noun drawn at random
/// from petname's default word lists, which are not empty and hold no word
/// with `-`, joined by `-`.
#[verifier::external_body]
fn random_name() -> (r: Option<String>)
    ensures
        r is Some,
        is_two_word_name(r->Some_0@),
{
    petname::petname(2, "-")
}

#[verifier::external_type_specification]
#[verifier::external_body]
pub struct ExZoned(jiff::Zoned);

#[verifier::external_type_specification]
#[verifier::external_body]
pub struct ExJiffError(jiff::Error);

/// Whether `s` is made of ASCII digits only.
pub open spec fn all_digits(s: Seq<char>) -> bool {
    forall|i: int| 0 <= i < s.len() ==> '0' <= #[trigger] s[i] <= '9'
}

/// A year as jiff prints it: at least four digits, or a `-` and digits.
pub open spec fn is_year_text(y: Seq<char>) -> bool {
    (y.len() >= 4 && all_digits(y)) || (y.len() >= 2 && y[0] == '-' && all_digits(y.drop_first()))
}

/// Exactly two ASCII digits.
pub open spec fn is_two_digits(s: Seq<char>) -> bool {
    s.len() == 2 && all_digits(s)
}

/// The shape of a timestamp: `YYYY-MM-DD-HH:MM:SS(<zone abbreviation>)`.
pub open spec fn is_timestamp_text(s: Seq<char>) -> bool {
    exists|y: Seq<char>, mo: Seq<char>, d: Seq<char>, h: Seq<char>, mi: Seq<char>, se: Seq<char>, z: Seq<char>|
        is_year_text(y) && is_two_digits(mo) && is_two_digits(d) && is_two_digits(h) && is_two_digits(mi)
            && is_two_digits(se)
            && s == y + "-"@ + mo + "-"@ + d + "-"@ + h + ":"@ + mi + ":"@ + se + "("@ + z + ")"@
}

/// Relies on `Zoned`'s `TryFrom<SystemTime>`: the current time in the
/// system's time zone, or an error when the system clock lies outside the
/// range jiff represents.
#[verifier::external_body]
fn now_zoned() -> (r: Result<jiff::Zoned, jiff::Error>) {
    jiff::Zoned::try_from(std::time::SystemTime::now())
}

/// Relies on `Zoned::strftime` with `%Y-%m-%d-%H:%M:%S(%Z)`: literal
/// characters are written as they stand, the year is padded to four digits
/// (with a sign only when negative), the other numbers to two digits, and
/// `%Z` gives the zone's abbreviation.
#[verifier::external_body]
fn format_timestamp(time: &jiff::Zoned) -> (r: String)
    ensures
        is_timestamp_text(r@),
{
    time.strftime("%Y-%m-%d-%H:%M:%S(%Z)").to_string()
}

/// A fresh label for the repository at `repo_root`: a random name, the
/// local time and the repository's status string. A failure to read the
/// repository is returned unchanged.
pub fn label(repo_root: &str) -> (r: Result<String, GenError>)
    ensures
        r matches Ok(l) ==> exists|n: Seq<char>, t: Seq<char>, h: Option<(Seq<char>, Option<Seq<char>>, bool)>|
            is_two_word_name(n) && is_timestamp_text(t) && l@ == label_spec(n, t, status_spec(h)),
        r matches Err(e) ==> (e is Repository || e is Clock),
{
    let name = random_name().unwrap();
    let status = match git_status(repo_root) {
        Ok(s) => s,
        Err(e) => return Err(e),
    };
    let now = match now_zoned() {
        Ok(t) => t,
        Err(source) => return Err(GenError::Clock { source }),
    };
    let timestamp = format_timestamp(&now);
    let l = compose_label(name.as_str(), timestamp.as_str(), status.as_str());
    Ok(l)
}

/// Two labels made with the same timestamp and status both end in `-` and
/// the status, and they differ whenever their names differ.
pub proof fn lemma_labels_share_status(n1: Seq<char>, n2: Seq<char>, t: Seq<char>, s: Seq<char>)
    ensures
        ({
            let l1 = label_spec(n1, t, s);
            let l2 = label_spec(n2, t, s);
            let tail = "-"@ + s;
            &&& l1.subrange(l1.len() - tail.len(), l1.len() as int) == tail
            &&& l2.subrange(l2.len() - tail.len(), l2.len() as int) == tail
            &&& n1 != n2 ==> l1 != l2
        }),
{
    let l1 = label_spec(n1, t, s);
    let l2 = label_spec(n2, t, s);
    let rest = "-"@ + t + "-"@ + s;
    assert(l1 =~= n1 + rest);
    assert(l2 =~= n2 + rest);
    assert(l1.subrange(l1.len() - ("-"@ + s).len(), l1.len() as int) =~= "-"@ + s);
    assert(l2.subrange(l2.len() - ("-"@ + s).len(), l2.len() as int) =~= "-"@ + s);
    if n1 != n2 && l1 == l2 {
        assert(l1.subrange(0, n1.len() as int) =~= n1);
        assert(l2.subrange(0, n2.len() as int) =~= n2);
        assert(n1 =~= n2);
    }
}

/// A hyphen-free word followed by `-` is read back from the front.
proof fn lemma_split_at_hyphen(w: Seq<char>, x: Seq<char>, v: Seq<char>, y: Seq<char>)
    requires
        is_word(w),
        is_word(v),
        w + "-"@ + x == v + "-"@ + y,
    ensures
        w == v,
        x == y,
{
    reveal_strlit("-");
    let s = w + "-"@ + x;
    if w.len() < v.len() {
        assert(s[w.len() as int] == '-');
        assert(s[w.len() as int] == v[w.len() as int]);
        assert(v.contains('-'));
    } else if v.len() < w.len() {
        assert(s[v.len() as int] == '-');
        assert(s[v.len() as int] == w[v.len() as int]);
        assert(w.contains('-'));
    }
    assert(w =~= s.subrange(0, w.len() as int));
    assert(v =~= s.subrange(0, v.len() as int));
    assert(x =~= s.subrange(w.len() as int + 1, s.len() as int));
    assert(y =~= s.subrange(v.len() as int + 1, s.len() as int));
}

/// Labels whose generated names differ are different labels, whatever their
/// timestamps and statuses.
pub proof fn lemma_labels_differ_by_name(n1: Seq<char>, t1: Seq<char>, s1: Seq<char>, n2: Seq<char>, t2: Seq<char>, s2: Seq<char>)
    requires
        is_two_word_name(n1),
        is_two_word_name(n2),
        n1 != n2,
    ensures
        label_spec(n1, t1, s1) != label_spec(n2, t2, s2),
{
    let (a1, b1) = choose|a: Seq<char>, b: Seq<char>| is_word(a) && is_word(b) && n1 == a + "-"@ + b;
    let (a2, b2) = choose|a: Seq<char>, b: Seq<char>| is_word(a) && is_word(b) && n2 == a + "-"@ + b;
    let r1 = t1 + "-"@ + s1;
    let r2 = t2 + "-"@ + s2;
    if label_spec(n1, t1, s1) == label_spec(n2, t2, s2) {
        assert(label_spec(n1, t1, s1) =~= a1 + "-"@ + (b1 + "-"@ + r1));
        assert(label_spec(n2, t2, s2) =~= a2 + "-"@ + (b2 + "-"@ + r2));
        lemma_split_at_hyphen(a1, b1 + "-"@ + r1, a2, b2 + "-"@ + r2);
        lemma_split_at_hyphen(b1, r1, b2, r2);
        assert(n1 == n2);
    }
}

} // verus!
