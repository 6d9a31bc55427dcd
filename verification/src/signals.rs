//! The signal store's rules: record validation, safe filenames, listing
//! records and their order.
//!
//! The store itself is plain file persistence and lives with the caller; what
//! the library owns is every rule about the records: which configurations are
//! valid, how a record name becomes a filename, what a listing entry contains
//! and how the listing is ordered.

use vstd::prelude::*;
use vstd::multiset::Multiset;
use vstd::relations::sorted_by;

use crate::errors::SignalError;

verus! {

/// A named signal configuration: a crankshaft pattern and up to two camshaft
/// patterns, each an opaque textual blob with a required `SIG1` prefix.
#[derive(Debug, Clone)]
pub struct SignalConfig {
    /// The record's name; must not be empty.
    pub name: String,
    /// The crankshaft pattern.
    pub ckp: String,
    /// The first camshaft pattern, if present.
    pub cmp1: Option<String>,
    /// The second camshaft pattern, if present.
    pub cmp2: Option<String>,
}

/// A listing entry for a saved signal: its name, its filename, and which
/// patterns it carries — without the blobs themselves.
#[derive(Debug, Clone)]
pub struct SignalInfo {
    /// The record's name.
    pub name: String,
    /// The file the record is stored under.
    pub filename: String,
    /// Whether the crankshaft pattern is non-empty.
    pub has_ckp: bool,
    /// Whether the first camshaft pattern is present.
    pub has_cmp1: bool,
    /// Whether the second camshaft pattern is present.
    pub has_cmp2: bool,
}

/// Whether text begins with the required `SIG1` pattern prefix.
pub open spec fn has_sig_prefix(s: Seq<char>) -> bool {
    s.len() >= 4 && s[0] == 'S' && s[1] == 'I' && s[2] == 'G' && s[3] == '1'
}

/// A configuration is valid when its name is non-empty and every pattern it
/// carries has the `SIG1` prefix.
pub open spec fn signal_valid(c: SignalConfig) -> bool {
    &&& c.name@.len() > 0
    &&& has_sig_prefix(c.ckp@)
    &&& (c.cmp1 matches Some(s) ==> has_sig_prefix(s@))
    &&& (c.cmp2 matches Some(s) ==> has_sig_prefix(s@))
}

fn starts_with_sig(s: &str) -> (r: bool)
    ensures
        r == has_sig_prefix(s@),
{
    let n = s.unicode_len();
    if n < 4 {
        return false;
    }
    s.get_char(0) == 'S' && s.get_char(1) == 'I' && s.get_char(2) == 'G' && s.get_char(3) == '1'
}

/// Check a configuration against the store's rules, reporting the first rule
/// broken: an empty name, then a bad crankshaft prefix, then each camshaft in
/// turn.
pub fn validate_signal(config: &SignalConfig) -> (r: Result<(), SignalError>)
    ensures
        r is Ok <==> signal_valid(*config),
        config.name@.len() == 0 ==> (r matches Err(SignalError::ValidationError(m)) && m@
            == "Signal name cannot be empty"@),
        config.name@.len() > 0 && !has_sig_prefix(config.ckp@) ==> (r matches Err(
            SignalError::ValidationError(m),
        ) && m@ == "CKP must start with SIG1 prefix"@),
        config.name@.len() > 0 && has_sig_prefix(config.ckp@) && (config.cmp1 matches Some(s)
            && !has_sig_prefix(s@)) ==> (r matches Err(SignalError::ValidationError(m)) && m@
            == "CMP1 must start with SIG1 prefix"@),
        config.name@.len() > 0 && has_sig_prefix(config.ckp@) && (config.cmp1 matches Some(s)
            ==> has_sig_prefix(s@)) && (config.cmp2 matches Some(s) && !has_sig_prefix(s@)) ==> (
        r matches Err(SignalError::ValidationError(m)) && m@ == "CMP2 must start with SIG1 prefix"@),
    {
    if config.name.as_str().is_empty() {
        return Err(SignalError::ValidationError("Signal name cannot be empty".to_owned()));
    }
    if !starts_with_sig(config.ckp.as_str()) {
        return Err(SignalError::ValidationError("CKP must start with SIG1 prefix".to_owned()));
    }
    match &config.cmp1 {
        Some(s) => {
            if !starts_with_sig(s.as_str()) {
                return Err(
                    SignalError::ValidationError("CMP1 must start with SIG1 prefix".to_owned()),
                );
            }
        },
        None => {},
    }
    match &config.cmp2 {
        Some(s) => {
            if !starts_with_sig(s.as_str()) {
                return Err(
                    SignalError::ValidationError("CMP2 must start with SIG1 prefix".to_owned()),
                );
            }
        },
        None => {},
    }
    Ok(())
}

/// The store's error for a record file that does not exist.
pub fn not_found_error(filename: &str) -> (r: SignalError)
    ensures
        r matches SignalError::NotFound(m) && m@ == "Signal '"@ + filename@ + "' not found"@,
{
    SignalError::NotFound("Signal '".to_owned().concat(filename).concat("' not found"))
}

/// What `char::is_alphanumeric` returns: a function of the character alone.
pub uninterp spec fn alnum_char(c: char) -> bool;

/// Relies on `char::is_alphanumeric`: whether the character is a Unicode
/// letter or number, a function of the character alone.  ASCII letters and
/// digits are alphanumeric; every other ASCII character is not.
#[verifier::external_body]
fn char_is_alphanumeric(c: char) -> (r: bool)
    ensures
        r == alnum_char(c),
        ('a' <= c && c <= 'z') || ('A' <= c && c <= 'Z') || ('0' <= c && c <= '9') ==> r,
        (c as u32) < 128 && !(('a' <= c && c <= 'z') || ('A' <= c && c <= 'Z') || ('0' <= c && c
            <= '9')) ==> !r,
{
    c.is_alphanumeric()
}

/// What `str::to_lowercase` returns: a function of the characters alone.
pub uninterp spec fn lower_of(s: Seq<char>) -> Seq<char>;

/// Relies on `str::to_lowercase`: the Unicode lowercase of the text, a
/// function of the characters alone; empty text stays empty.
#[verifier::external_body]
fn to_lowercase_str(s: &str) -> (r: String)
    ensures
        r@ == lower_of(s@),
        s@.len() == 0 ==> r@.len() == 0,
{
    s.to_lowercase()
}

/// Relies on `String::push`: appends exactly one character.
#[verifier::external_body]
fn push_char(s: &mut String, c: char)
    ensures
        final(s)@ == old(s)@.push(c),
{
    s.push(c);
}

/// The per-character filename map: alphanumerics and `-`/`_` pass through,
/// everything else becomes `_`.
pub open spec fn filename_char(c: char) -> char {
    if alnum_char(c) || c == '-' || c == '_' {
        c
    } else {
        '_'
    }
}

/// The filename derived from a record name: each character mapped through
/// [`filename_char`], then lowercased.
pub open spec fn safe_name(s: Seq<char>) -> Seq<char> {
    lower_of(s.map_values(|c: char| filename_char(c)))
}

/// Derive the safe filename stem for a record name.
pub fn safe_filename(name: &str) -> (r: String)
    ensures
        r@ == safe_name(name@),
{
    let n = name.unicode_len();
    let mut mapped = String::new();
    let mut i: usize = 0;
    proof {
        assert(name@.take(0).map_values(|c: char| filename_char(c)) =~= Seq::<char>::empty());
    }
    while i < n
        invariant
            0 <= i <= n,
            n == name@.len(),
            mapped@ == name@.take(i as int).map_values(|c: char| filename_char(c)),
        decreases n - i,
    {
        let c = name.get_char(i);
        let mc = if char_is_alphanumeric(c) || c == '-' || c == '_' {
            c
        } else {
            '_'
        };
        push_char(&mut mapped, mc);
        proof {
            assert(name@.take(i + 1 as int).map_values(|c: char| filename_char(c)) =~= name@.take(
                i as int,
            ).map_values(|c: char| filename_char(c)).push(filename_char(name@[i as int])));
        }
        i = i + 1;
    }
    proof {
        assert(name@.take(n as int) =~= name@);
    }
    to_lowercase_str(mapped.as_str())
}

/// Build the listing entry for one stored record.
pub fn signal_info_of(config: &SignalConfig, filename: String) -> (r: SignalInfo)
    ensures
        r.name@ == config.name@,
        r.filename == filename,
        r.has_ckp == (config.ckp@.len() > 0),
        r.has_cmp1 == (config.cmp1 is Some),
        r.has_cmp2 == (config.cmp2 is Some),
{
    SignalInfo {
        name: config.name.clone(),
        filename,
        has_ckp: !config.ckp.as_str().is_empty(),
        has_cmp1: config.cmp1.is_some(),
        has_cmp2: config.cmp2.is_some(),
    }
}

/// Lexicographic order on text by code point — the order `str::cmp` gives.
pub open spec fn lex_le(a: Seq<char>, b: Seq<char>) -> bool
    decreases a.len(),
{
    if a.len() == 0 {
        true
    } else if b.len() == 0 {
        false
    } else if (a[0] as u32) < (b[0] as u32) {
        true
    } else if (a[0] as u32) > (b[0] as u32) {
        false
    } else {
        lex_le(a.drop_first(), b.drop_first())
    }
}

/// Any two texts are ordered one way or the other.
pub proof fn lemma_lex_le_total(a: Seq<char>, b: Seq<char>)
    ensures
        lex_le(a, b) || lex_le(b, a),
    decreases a.len(),
{
    if a.len() > 0 && b.len() > 0 && (a[0] as u32) == (b[0] as u32) {
        lemma_lex_le_total(a.drop_first(), b.drop_first());
    }
}

/// The order is transitive.
pub proof fn lemma_lex_le_trans(a: Seq<char>, b: Seq<char>, c: Seq<char>)
    requires
        lex_le(a, b),
        lex_le(b, c),
    ensures
        lex_le(a, c),
    decreases a.len(),
{
    if a.len() > 0 && b.len() > 0 && c.len() > 0 && (a[0] as u32) == (b[0] as u32) && (b[0] as u32)
        == (c[0] as u32) {
        lemma_lex_le_trans(a.drop_first(), b.drop_first(), c.drop_first());
    }
}

proof fn lemma_lex_skip(a: Seq<char>, b: Seq<char>, i: int)
    requires
        0 <= i <= a.len(),
        i <= b.len(),
        forall|k: int| 0 <= k < i ==> (a[k] as u32) == (b[k] as u32),
    ensures
        lex_le(a, b) == lex_le(a.skip(i), b.skip(i)),
    decreases i,
{
    if i == 0 {
        assert(a.skip(0) =~= a);
        assert(b.skip(0) =~= b);
    } else {
        lemma_lex_skip(a.drop_first(), b.drop_first(), i - 1);
        assert(a.drop_first().skip(i - 1) =~= a.skip(i));
        assert(b.drop_first().skip(i - 1) =~= b.skip(i));
    }
}

fn lex_le_str(a: &str, b: &str) -> (r: bool)
    ensures
        r == lex_le(a@, b@),
{
    let an = a.unicode_len();
    let bn = b.unicode_len();
    let mut i: usize = 0;
    while i < an && i < bn
        invariant
            an == a@.len(),
            bn == b@.len(),
            0 <= i <= an,
            i <= bn,
            forall|k: int| 0 <= k < i ==> (a@[k] as u32) == (b@[k] as u32),
        decreases an - i,
    {
        let ca = a.get_char(i);
        let cb = b.get_char(i);
        if (ca as u32) < (cb as u32) {
            proof {
                lemma_lex_skip(a@, b@, i as int);
            }
            return true;
        }
        if (ca as u32) > (cb as u32) {
            proof {
                lemma_lex_skip(a@, b@, i as int);
            }
            return false;
        }
        i = i + 1;
    }
    proof {
        let j = if an <= bn {
            an as int
        } else {
            bn as int
        };
        lemma_lex_skip(a@, b@, j);
    }
    an <= bn
}

/// The listing order: by record name, lowercased.
pub open spec fn info_le(a: SignalInfo, b: SignalInfo) -> bool {
    lex_le(lower_of(a.name@), lower_of(b.name@))
}

/// The listing order as a relation value, for [`sorted_by`].
pub open spec fn by_name_le() -> spec_fn(SignalInfo, SignalInfo) -> bool {
    |a: SignalInfo, b: SignalInfo| info_le(a, b)
}

fn info_le_exec(a: &SignalInfo, b: &SignalInfo) -> (r: bool)
    ensures
        r == info_le(*a, *b),
{
    let la = to_lowercase_str(a.name.as_str());
    let lb = to_lowercase_str(b.name.as_str());
    lex_le_str(la.as_str(), lb.as_str())
}

proof fn lemma_insert_multiset<A>(s: Seq<A>, pos: int, x: A)
    requires
        0 <= pos <= s.len(),
    ensures
        s.insert(pos, x).to_multiset() == s.to_multiset().insert(x),
{
    broadcast use vstd::seq_lib::group_to_multiset_ensures;
    broadcast use vstd::multiset::group_multiset_axioms;

    let a = s.subrange(0, pos);
    let b = s.subrange(pos, s.len() as int);
    assert(s =~= a + b);
    vstd::seq_lib::lemma_multiset_commutative(a, b);
    vstd::seq_lib::lemma_multiset_commutative(a.push(x), b);
    assert(a.push(x).to_multiset() =~= a.to_multiset().insert(x));
    assert(a.to_multiset().insert(x).add(b.to_multiset()) =~= a.to_multiset().add(
        b.to_multiset(),
    ).insert(x));
}

proof fn lemma_remove_first_multiset<A>(s: Seq<A>)
    requires
        s.len() > 0,
    ensures
        s.remove(0).to_multiset().insert(s[0]) == s.to_multiset(),
{
    broadcast use vstd::seq_lib::group_to_multiset_ensures;
    broadcast use vstd::multiset::group_multiset_axioms;

    assert(s.contains(s[0]));
    assert(s.to_multiset().count(s[0]) > 0);
    assert(s.remove(0).to_multiset() == s.to_multiset().remove(s[0]));
    assert(s.to_multiset().remove(s[0]).insert(s[0]) =~= s.to_multiset());
}

proof fn lemma_multiset_insert_shift<A>(m1: Multiset<A>, m2: Multiset<A>, x: A)
    ensures
        m1.insert(x).add(m2) == m1.add(m2.insert(x)),
{
    broadcast use vstd::multiset::group_multiset_axioms;

    assert(m1.insert(x).add(m2) =~= m1.add(m2.insert(x)));
}

proof fn lemma_empty_seq_add_multiset<A>(s: Seq<A>, m: Multiset<A>)
    requires
        s.len() == 0,
    ensures
        s.to_multiset().add(m) == m,
{
    broadcast use vstd::seq_lib::group_to_multiset_ensures;
    broadcast use vstd::multiset::group_multiset_axioms;

    assert(s.to_multiset().len() == 0);
    assert(s.to_multiset().add(m) =~= m);
}

proof fn lemma_multiset_add_empty_seq<A>(m: Multiset<A>, s: Seq<A>)
    requires
        s.len() == 0,
    ensures
        m.add(s.to_multiset()) == m,
{
    broadcast use vstd::seq_lib::group_to_multiset_ensures;
    broadcast use vstd::multiset::group_multiset_axioms;

    assert(s =~= Seq::<A>::empty());
    assert(s.to_multiset().len() == 0);
    assert(m.add(s.to_multiset()) =~= m);
}

proof fn lemma_sorted_insert(s: Seq<SignalInfo>, pos: int, x: SignalInfo)
    requires
        0 <= pos <= s.len(),
        sorted_by(s, by_name_le()),
        forall|k: int| 0 <= k < pos ==> info_le(#[trigger] s[k], x),
        pos < s.len() ==> info_le(x, s[pos]),
    ensures
        sorted_by(s.insert(pos, x), by_name_le()),
{
    let t = s.insert(pos, x);
    assert forall|i: int, j: int| 0 <= i < j < t.len() implies #[trigger] by_name_le()(
        t[i],
        t[j],
    ) by {
        if j < pos {
            assert(by_name_le()(s[i], s[j]));
        } else if i < pos && j == pos {
            assert(info_le(s[i], x));
        } else if i < pos && j > pos {
            assert(by_name_le()(s[i], s[j - 1]));
        } else if i == pos {
            assert(info_le(x, s[pos]));
            if j - 1 > pos {
                assert(by_name_le()(s[pos], s[j - 1]));
                lemma_lex_le_trans(
                    lower_of(x.name@),
                    lower_of(s[pos].name@),
                    lower_of(s[j - 1].name@),
                );
            }
        } else {
            assert(by_name_le()(s[i - 1], s[j - 1]));
        }
    }
}

/// Sort listing entries by name, case-insensitively: the result is ordered
/// and holds exactly the entries given.
pub fn sort_signals(v: Vec<SignalInfo>) -> (r: Vec<SignalInfo>)
    ensures
        sorted_by(r@, by_name_le()),
        r@.to_multiset() == v@.to_multiset(),
{
    let ghost orig = v@;
    let mut rest = v;
    let mut out: Vec<SignalInfo> = Vec::new();
    proof {
        lemma_empty_seq_add_multiset(out@, rest@.to_multiset());
    }
    while rest.len() > 0
        invariant
            sorted_by(out@, by_name_le()),
            out@.to_multiset().add(rest@.to_multiset()) == orig.to_multiset(),
        decreases rest@.len(),
    {
        let ghost rest0 = rest@;
        let x = rest.remove(0);
        proof {
            lemma_remove_first_multiset(rest0);
            assert(rest@.to_multiset().insert(x) == rest0.to_multiset());
        }
        let mut pos: usize = 0;
        while pos < out.len() && info_le_exec(&out[pos], &x)
            invariant
                0 <= pos <= out@.len(),
                forall|k: int| 0 <= k < pos ==> info_le(#[trigger] out@[k], x),
            decreases out@.len() - pos,
        {
            pos = pos + 1;
        }
        proof {
            if pos < out@.len() {
                lemma_lex_le_total(lower_of(x.name@), lower_of(out@[pos as int].name@));
            }
            lemma_sorted_insert(out@, pos as int, x);
            lemma_insert_multiset(out@, pos as int, x);
            lemma_multiset_insert_shift(out@.to_multiset(), rest@.to_multiset(), x);
        }
        out.insert(pos, x);
    }
    proof {
        lemma_multiset_add_empty_seq(out@.to_multiset(), rest@);
    }
    out
}

} // verus!
