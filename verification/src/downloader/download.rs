//! The address that a file of the file list is downloaded from.

use vstd::prelude::*;

use vstd::string::{StrSliceExecFns, StringExecFns};
use super::server::Server;

verus! {

/// The index of the last `.` of `s`, if it has one.
pub open spec fn last_dot(s: Seq<char>) -> Option<int>
    decreases s.len(),
{
    if s.len() == 0 {
        None
    } else if s.last() == '.' {
        Some(s.len() - 1)
    } else {
        last_dot(s.drop_last())
    }
}

/// `s` with everything from its last `.` on replaced by `.dat`; unchanged
/// where it has no `.`.
pub open spec fn spec_dat_name(s: Seq<char>) -> Seq<char> {
    match last_dot(s) {
        Some(i) => s.take(i) + ".dat"@,
        None => s,
    }
}

/// Writes `s` as [`spec_dat_name`] says.
pub fn dat_name(s: &str) -> (r: String)
    ensures
        r@ == spec_dat_name(s@),
{
    let n = s.unicode_len();
    let mut k = n;
    proof {
        assert(s@.take(n as int) =~= s@);
    }
    while k > 0
        invariant
            k <= n,
            n == s@.len(),
            last_dot(s@) == last_dot(s@.take(k as int)),
        decreases k,
    {
        let c = s.get_char(k - 1);
        proof {
            assert(s@.take(k as int).last() == c);
            assert(s@.take(k as int).drop_last() =~= s@.take(k - 1));
        }
        if c == '.' {
            let mut r = String::from_str(s.substring_char(0, k - 1));
            r.append(".dat");
            return r;
        }
        k = k - 1;
    }
    proof {
        assert(s@.take(0) =~= Seq::<char>::empty());
    }
    String::from_str(s)
}

/// How a character of a file name is written in an address: `/` as `_`,
/// `#` as `__`, any other as itself.
pub open spec fn escape_char(c: char) -> Seq<char> {
    if c == '/' {
        "_"@
    } else if c == '#' {
        "__"@
    } else {
        seq![c]
    }
}

/// A file name as it is written in an address, character by character.
pub open spec fn spec_escape(s: Seq<char>) -> Seq<char>
    decreases s.len(),
{
    if s.len() == 0 {
        Seq::empty()
    } else {
        spec_escape(s.drop_last()) + escape_char(s.last())
    }
}

/// An escaped file name holds neither `/` nor `#`, so that it is one
/// component of an address.
pub proof fn escaped_names_have_no_separators(s: Seq<char>)
    ensures
        forall|i: int| 0 <= i < spec_escape(s).len() ==> #[trigger] spec_escape(s)[i] != '/' && spec_escape(s)[i] != '#',
    decreases s.len(),
{
    if s.len() > 0 {
        escaped_names_have_no_separators(s.drop_last());
        reveal_strlit("_");
        reveal_strlit("__");
        let a = spec_escape(s.drop_last());
        let b = escape_char(s.last());
        assert forall|i: int| 0 <= i < (a + b).len() implies #[trigger] (a + b)[i] != '/' && (a + b)[i] != '#' by {
            if i >= a.len() {
                assert((a + b)[i] == b[i - a.len()]);
            } else {
                assert((a + b)[i] == a[i]);
            }
        }
    }
}

proof fn lemma_last_dot(s: Seq<char>)
    ensures
        last_dot(s) matches Some(i) ==> 0 <= i < s.len() && s[i] == '.'
            && forall|j: int| i < j < s.len() ==> #[trigger] s[j] != '.',
        last_dot(s) is None ==> forall|j: int| 0 <= j < s.len() ==> #[trigger] s[j] != '.',
    decreases s.len(),
{
    if s.len() > 0 {
        lemma_last_dot(s.drop_last());
        if s.last() != '.' {
            assert forall|j: int| 0 <= j < s.len() - 1 implies s.drop_last()[j] == #[trigger] s[j] by {}
        }
    }
}

/// The extension of a file name is replaced by `.dat`: a name without a
/// `.` stays as it is; otherwise the result is the name up to a `.` after
/// which no `.` follows, then `.dat`.
pub proof fn dat_name_replaces_the_last_extension(s: Seq<char>)
    ensures
        (forall|j: int| 0 <= j < s.len() ==> #[trigger] s[j] != '.') ==> spec_dat_name(s) == s,
        (exists|j: int| 0 <= j < s.len() && #[trigger] s[j] == '.') ==> {
            let r = spec_dat_name(s);
            let k = r.len() - 4;
            &&& r.skip(k) == ".dat"@
            &&& 0 <= k < s.len()
            &&& r.take(k) == s.take(k)
            &&& s[k] == '.'
            &&& forall|j: int| k < j < s.len() ==> #[trigger] s[j] != '.'
        },
{
    lemma_last_dot(s);
    reveal_strlit(".dat");
    if let Some(i) = last_dot(s) {
        let r = s.take(i) + ".dat"@;
        assert(r.skip(i) =~= ".dat"@);
        assert(r.take(i) =~= s.take(i));
    }
}

/// Escaping works character by character: the escape of two texts one
/// after the other is their escapes one after the other.
pub proof fn escape_is_character_by_character(a: Seq<char>, b: Seq<char>)
    ensures
        spec_escape(a + b) == spec_escape(a) + spec_escape(b),
    decreases b.len(),
{
    if b.len() == 0 {
        assert(a + b =~= a);
        assert(spec_escape(a) + spec_escape(b) =~= spec_escape(a));
    } else {
        escape_is_character_by_character(a, b.drop_last());
        assert((a + b).drop_last() =~= a + b.drop_last());
        assert((a + b).last() == b.last());
        assert(spec_escape(a) + spec_escape(b.drop_last()) + escape_char(b.last())
            =~= spec_escape(a) + (spec_escape(b.drop_last()) + escape_char(b.last())));
    }
}

/// A `/` is written as one `_`, a `#` as two, and any other character as
/// itself.
pub proof fn escape_of_one_character(c: char)
    ensures
        spec_escape(seq![c]) == (if c == '/' {
            seq!['_']
        } else if c == '#' {
            seq!['_', '_']
        } else {
            seq![c]
        }),
{
    reveal_strlit("_");
    reveal_strlit("__");
    let s = seq![c];
    assert(s.len() == 1);
    assert(s.drop_last() =~= Seq::<char>::empty());
    assert(s.last() == c);
    assert(spec_escape(Seq::<char>::empty()) == Seq::<char>::empty());
    assert(spec_escape(s) == spec_escape(s.drop_last()) + escape_char(s.last()));
    assert(Seq::<char>::empty() + escape_char(c) =~= escape_char(c));
    assert("_"@.len() == 1 && "_"@[0] == '_');
    assert("__"@.len() == 2 && "__"@[0] == '_' && "__"@[1] == '_');
    assert("_"@ =~= seq!['_']);
    assert("__"@ =~= seq!['_', '_']);
}

/// Writes `s` as [`spec_escape`] says.
pub fn escape(s: &str) -> (r: String)
    ensures
        r@ == spec_escape(s@),
{
    let n = s.unicode_len();
    let mut out = String::new();
    let mut i: usize = 0;
    proof {
        assert(s@.take(0) =~= Seq::<char>::empty());
    }
    while i < n
        invariant
            n == s@.len(),
            i <= n,
            out@ == spec_escape(s@.take(i as int)),
        decreases n - i,
    {
        let c = s.get_char(i);
        proof {
            assert(s@.take(i + 1).drop_last() =~= s@.take(i as int));
            assert(s@.take(i + 1).last() == c);
        }
        if c == '/' {
            out.append("_");
        } else if c == '#' {
            out.append("__");
        } else {
            let one = s.substring_char(i, i + 1);
            proof {
                assert(one@ =~= seq![c]);
            }
            out.append(one);
        }
        i = i + 1;
    }
    proof {
        assert(s@.take(n as int) =~= s@);
    }
    out
}

/// The path under which the file `filename` of the file list is served:
/// its extension replaced by `.dat`, then escaped.
pub open spec fn spec_url_path(filename: Seq<char>) -> Seq<char> {
    spec_escape(spec_dat_name(filename))
}

pub fn url_path(filename: &str) -> (r: String)
    ensures
        r@ == spec_url_path(filename@),
{
    let dat = dat_name(filename);
    escape(dat.as_str())
}

/// The address that `filename` of version `res_version` is downloaded from.
pub fn download_url(server: &Server, res_version: &str, filename: &str) -> (r: String)
    ensures
        r@ == server.spec_asset_url(res_version@, spec_url_path(filename@)),
{
    let path = url_path(filename);
    server.asset_url(res_version, path.as_str())
}

} // verus!
