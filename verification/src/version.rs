//! Package versions.
//!
//! A version as written is a dot-separated list of decimal numbers. Two
//! versions are the same when their release numbers agree once trailing
//! zeros are stripped, so `1.0` and `1.0.0` denote one version. The written
//! text is kept verbatim for display.

use vstd::prelude::*;
use crate::strutil::split_on;

verus! {

/// The value of one decimal digit; any other character counts as zero.
pub open spec fn digit_of(c: char) -> nat {
    if '0' <= c && c <= '9' {
        (c as int - 48) as nat
    } else {
        0
    }
}

/// The value of a sequence of decimal digits.
pub open spec fn digits_val(s: Seq<char>) -> nat
    decreases s.len(),
{
    if s.len() == 0 {
        0
    } else {
        digits_val(s.drop_last()) * 10 + digit_of(s.last())
    }
}

/// Whether `s` is one or more decimal digits.
pub open spec fn is_digits(s: Seq<char>) -> bool {
    s.len() > 0 && forall|i: int| 0 <= i < s.len() ==> '0' <= #[trigger] s[i] && s[i] <= '9'
}

/// Whether `p` can stand as one release segment.
pub open spec fn valid_part(p: Seq<char>) -> bool {
    is_digits(p) && digits_val(p) <= u64::MAX
}

/// Whether `s` can be read as a version.
pub open spec fn valid_version_text(s: Seq<char>) -> bool {
    forall|i: int| 0 <= i < split_on(s, '.').len() ==> valid_part(#[trigger] split_on(s, '.')[i])
}

/// `r` without its trailing zero segments.
pub open spec fn strip_zeros(r: Seq<u64>) -> Seq<u64>
    decreases r.len(),
{
    if r.len() > 0 && r.last() == 0 {
        strip_zeros(r.drop_last())
    } else {
        r
    }
}

/// The canonical release numbers of a version text.
pub open spec fn release_of(s: Seq<char>) -> Seq<u64> {
    strip_zeros(split_on(s, '.').map_values(|p: Seq<char>| digits_val(p) as u64))
}

/// A parsed version: canonical release numbers plus the text as written.
pub struct Version {
    release: Vec<u64>,
    text: String,
}

/// Strict order on release numbers, comparing segment by segment with
/// missing segments read as zero, from position `i` on.
pub open spec fn rel_lt_from(a: Seq<u64>, b: Seq<u64>, i: int) -> bool
    decreases a.len() + b.len() - i,
{
    if i >= a.len() && i >= b.len() {
        false
    } else {
        let av: u64 = if i < a.len() {
            a[i]
        } else {
            0
        };
        let bv: u64 = if i < b.len() {
            b[i]
        } else {
            0
        };
        if av != bv {
            av < bv
        } else {
            rel_lt_from(a, b, i + 1)
        }
    }
}

/// Strict order on release numbers.
pub open spec fn rel_lt(a: Seq<u64>, b: Seq<u64>) -> bool {
    rel_lt_from(a, b, 0)
}

/// The value of a longer digit prefix is at least the value of a shorter one.
proof fn lemma_digits_prefix_le(s: Seq<char>, i: int)
    requires
        0 <= i <= s.len(),
    ensures
        digits_val(s.subrange(0, i)) <= digits_val(s),
    decreases s.len() - i,
{
    if i < s.len() {
        assert(s.subrange(0, i + 1).drop_last() =~= s.subrange(0, i));
        assert(digits_val(s.subrange(0, i + 1)) == digits_val(s.subrange(0, i)) * 10 + digit_of(
            s[i],
        ));
        lemma_digits_prefix_le(s, i + 1);
    } else {
        assert(s.subrange(0, i) =~= s);
    }
}

/// Read one release segment. Returns its value exactly when the text is all
/// digits and the value fits.
fn parse_part(p: &str) -> (r: Option<u64>)
    ensures
        match r {
            Some(v) => valid_part(p@) && v as nat == digits_val(p@),
            None => !valid_part(p@),
        },
{
    let n = p.unicode_len();
    if n == 0 {
        return None;
    }
    let mut value: u64 = 0;
    let mut i: usize = 0;
    while i < n
        invariant
            i <= n,
            n == p@.len(),
            value as nat == digits_val(p@.subrange(0, i as int)),
            forall|j: int| 0 <= j < i ==> '0' <= #[trigger] p@[j] && p@[j] <= '9',
        decreases n - i,
    {
        let c = p.get_char(i);
        if !('0' <= c && c <= '9') {
            return None;
        }
        let d: u64 = ((c as u8) - 48) as u64;
        proof {
            assert(p@.subrange(0, i + 1).drop_last() =~= p@.subrange(0, i as int));
        }
        if value > (u64::MAX - d) / 10 {
            proof {
                lemma_digits_prefix_le(p@, i + 1);
            }
            return None;
        }
        value = value * 10 + d;
        i = i + 1;
    }
    proof {
        assert(p@.subrange(0, n as int) =~= p@);
    }
    Some(value)
}

impl Version {
    /// The canonical release numbers.
    pub closed spec fn view(&self) -> Seq<u64> {
        self.release@
    }

    /// The text as written.
    pub closed spec fn text_view(&self) -> Seq<char> {
        self.text@
    }

    /// Canonical: no trailing zero segment is kept.
    pub open spec fn wf(&self) -> bool {
        self@ == strip_zeros(self@)
    }

    /// Read a version. Returns it exactly when every dot-separated segment
    /// is a decimal number that fits in a machine word.
    pub fn parse(s: &str) -> (r: Option<Version>)
        ensures
            match r {
                Some(v) => valid_version_text(s@) && v@ == release_of(s@) && v.text_view() == s@
                    && v.wf(),
                None => !valid_version_text(s@),
            },
    {
        let parts = crate::strutil::split_str(s, '.');
        let ghost sparts = split_on(s@, '.');
        let mut release: Vec<u64> = Vec::new();
        let mut i: usize = 0;
        while i < parts.len()
            invariant
                i <= parts.len(),
                sparts == split_on(s@, '.'),
                parts@.map_values(|p: String| p@) == sparts,
                sparts.len() == parts@.len(),
                release@ == sparts.subrange(0, i as int).map_values(
                    |p: Seq<char>| digits_val(p) as u64,
                ),
                forall|j: int| 0 <= j < i ==> valid_part(#[trigger] sparts[j]),
            decreases parts.len() - i,
        {
            proof {
                assert(parts@.map_values(|p: String| p@)[i as int] == parts@[i as int]@);
                assert(sparts[i as int] == parts@[i as int]@);
            }
            match parse_part(parts[i].as_str()) {
                Some(v) => {
                    release.push(v);
                    proof {
                        assert(sparts.subrange(0, i + 1).drop_last() =~= sparts.subrange(
                            0,
                            i as int,
                        ));
                        assert(release@ =~= sparts.subrange(0, i + 1).map_values(
                            |p: Seq<char>| digits_val(p) as u64,
                        ));
                    }
                },
                None => {
                    proof {
                        assert(!valid_part(parts@[i as int]@));
                        assert(parts@.map_values(|p: String| p@)[i as int] == parts@[i as int]@);
                        assert(!valid_part(split_on(s@, '.')[i as int]));
                    }
                    return None;
                },
            }
            i = i + 1;
        }
        proof {
            assert(sparts.subrange(0, sparts.len() as int) =~= sparts);
        }
        // Strip trailing zeros to reach the canonical form.
        while release.len() > 0 && release[release.len() - 1] == 0
            invariant
                strip_zeros(release@) == release_of(s@),
            decreases release.len(),
        {
            let ghost before = release@;
            release.pop();
            proof {
                assert(release@ =~= before.drop_last());
            }
        }
        let v = Version { release, text: s.to_owned() };
        proof {
            lemma_strip_fixed(v@);
        }
        Some(v)
    }

    /// A copy of this version.
    pub fn dup(&self) -> (r: Version)
        ensures
            r@ == self@,
            r.text_view() == self.text_view(),
            self.wf() ==> r.wf(),
    {
        let mut release: Vec<u64> = Vec::new();
        let mut i: usize = 0;
        while i < self.release.len()
            invariant
                i <= self.release.len(),
                release@ == self.release@.subrange(0, i as int),
            decreases self.release.len() - i,
        {
            release.push(self.release[i]);
            i = i + 1;
            proof {
                assert(release@ =~= self.release@.subrange(0, i as int));
            }
        }
        proof {
            assert(self.release@.subrange(0, self.release@.len() as int) =~= self.release@);
        }
        Version { release, text: self.text.clone() }
    }

    /// The text as written.
    pub fn as_str(&self) -> (r: &str)
        ensures
            r@ == self.text_view(),
    {
        self.text.as_str()
    }

    /// Whether two versions denote the same release.
    pub fn same(&self, other: &Version) -> (r: bool)
        ensures
            r == (self@ == other@),
    {
        if self.release.len() != other.release.len() {
            proof {
                assert(self@ != other@);
            }
            return false;
        }
        let mut i: usize = 0;
        while i < self.release.len()
            invariant
                i <= self.release.len(),
                self.release.len() == other.release.len(),
                forall|j: int| 0 <= j < i ==> self.release@[j] == other.release@[j],
            decreases self.release.len() - i,
        {
            if self.release[i] != other.release[i] {
                return false;
            }
            i = i + 1;
        }
        proof {
            assert(self@ =~= other@);
        }
        true
    }

    /// Whether this version is strictly below `other`.
    pub fn below(&self, other: &Version) -> (r: bool)
        ensures
            r == rel_lt(self@, other@),
    {
        let an = self.release.len();
        let bn = other.release.len();
        let n = if an > bn {
            an
        } else {
            bn
        };
        let mut i: usize = 0;
        while i < n
            invariant
                i <= n,
                an == self.release.len(),
                bn == other.release.len(),
                n == if an > bn {
                    an
                } else {
                    bn
                },
                rel_lt(self@, other@) == rel_lt_from(self@, other@, i as int),
            decreases n - i,
        {
            let av: u64 = if i < an {
                self.release[i]
            } else {
                0
            };
            let bv: u64 = if i < bn {
                other.release[i]
            } else {
                0
            };
            if av != bv {
                return av < bv;
            }
            i = i + 1;
        }
        false
    }
}

/// Stripping trailing zeros is idempotent.
proof fn lemma_strip_fixed(r: Seq<u64>)
    ensures
        strip_zeros(strip_zeros(r)) == strip_zeros(r),
    decreases r.len(),
{
    if r.len() > 0 && r.last() == 0 {
        lemma_strip_fixed(r.drop_last());
    }
}


/// The order on release numbers never puts a version below itself.
pub proof fn lemma_rel_irrefl_from(a: Seq<u64>, i: int)
    ensures
        !rel_lt_from(a, a, i),
    decreases a.len() + a.len() - i,
{
    if i < a.len() {
        lemma_rel_irrefl_from(a, i + 1);
    }
}

/// The order on release numbers never puts a version below itself.
pub proof fn lemma_rel_irrefl(a: Seq<u64>)
    ensures
        !rel_lt(a, a),
{
    lemma_rel_irrefl_from(a, 0);
}

proof fn lemma_rel_trans_from(a: Seq<u64>, b: Seq<u64>, c: Seq<u64>, i: int)
    requires
        rel_lt_from(a, b, i),
        rel_lt_from(b, c, i),
    ensures
        rel_lt_from(a, c, i),
    decreases a.len() + b.len() + c.len() + 3 - i,
{
    let av: u64 = if i < a.len() { a[i] } else { 0 };
    let bv: u64 = if i < b.len() { b[i] } else { 0 };
    let cv: u64 = if i < c.len() { c[i] } else { 0 };
    if av == bv && bv == cv {
        if i < a.len() || i < b.len() || i < c.len() {
            lemma_rel_trans_from(a, b, c, i + 1);
        }
    }
}

/// The order on release numbers is transitive.
pub proof fn lemma_rel_trans(a: Seq<u64>, b: Seq<u64>, c: Seq<u64>)
    requires
        rel_lt(a, b),
        rel_lt(b, c),
    ensures
        rel_lt(a, c),
{
    lemma_rel_trans_from(a, b, c, 0);
}

} // verus!
