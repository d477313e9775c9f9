//! Normalized package names.
//!
//! A package name as written may mix case and use `-`, `_` or `.` as
//! separators. Two names denote the same package when their normalized forms
//! agree: every letter lowercased and every run of separators collapsed to a
//! single `-`.

use vstd::prelude::*;
use crate::strutil::lower_char;

verus! {

/// Whether `c` may appear in a package name as written.
pub open spec fn name_char(c: char) -> bool {
    ('a' <= c && c <= 'z') || ('A' <= c && c <= 'Z') || ('0' <= c && c <= '9') || c == '-' || c
        == '_' || c == '.'
}

/// One character of a name, lowercased, with the three separators unified.
pub open spec fn fold_name_char(c: char) -> char {
    if c == '_' || c == '.' {
        '-'
    } else {
        lower_char(c)
    }
}

/// The normalized form of a name: characters folded, separator runs collapsed.
pub open spec fn normalize_chars(s: Seq<char>) -> Seq<char>
    decreases s.len(),
{
    if s.len() == 0 {
        Seq::empty()
    } else {
        let p = normalize_chars(s.drop_last());
        let c = fold_name_char(s.last());
        if c == '-' && p.len() > 0 && p.last() == '-' {
            p
        } else {
            p.push(c)
        }
    }
}

/// Whether `s` is acceptable as a package name: nonempty, name characters only.
pub open spec fn valid_name_text(s: Seq<char>) -> bool {
    s.len() > 0 && forall|i: int| 0 <= i < s.len() ==> name_char(#[trigger] s[i])
}

/// A package name in normalized form.
pub struct PackageName {
    text: String,
}

impl PackageName {
    /// The normalized characters this name holds.
    pub closed spec fn view(&self) -> Seq<char> {
        self.text@
    }

    /// A name is well formed when it is its own normalization.
    pub open spec fn wf(&self) -> bool {
        self@ == normalize_chars(self@) && self@.len() > 0
    }

    /// Normalize a written name. Returns `None` exactly when the text is
    /// empty or holds a character that no package name may contain.
    pub fn parse(s: &str) -> (r: Option<PackageName>)
        ensures
            match r {
                Some(n) => valid_name_text(s@) && n@ == normalize_chars(s@) && n.wf(),
                None => !valid_name_text(s@),
            },
    {
        let n = s.unicode_len();
        if n == 0 {
            return None;
        }
        let mut text = String::new();
        let mut i: usize = 0;
        while i < n
            invariant
                i <= n,
                n == s@.len(),
                text@ == normalize_chars(s@.subrange(0, i as int)),
                forall|j: int| 0 <= j < i ==> name_char(#[trigger] s@[j]),
            decreases n - i,
        {
            let c = s.get_char(i);
            let ok = ('a' <= c && c <= 'z') || ('A' <= c && c <= 'Z') || ('0' <= c && c <= '9')
                || c == '-' || c == '_' || c == '.';
            if !ok {
                return None;
            }
            let f: char = if c == '_' || c == '.' {
                '-'
            } else if 'A' <= c && c <= 'Z' {
                ((c as u8) + 32) as char
            } else {
                c
            };
            assert(f == fold_name_char(c));
            let tlen = text.as_str().unicode_len();
            let skip = f == '-' && tlen > 0 && text.as_str().get_char(tlen - 1) == '-';
            proof {
                assert(s@.subrange(0, i + 1).drop_last() =~= s@.subrange(0, i as int));
                assert(s@.subrange(0, i + 1).last() == s@[i as int]);
            }
            if !skip {
                text.push(f);
            }
            i = i + 1;
        }
        proof {
            assert(s@.subrange(0, n as int) =~= s@);
        }
        let name = PackageName { text };
        proof {
            lemma_normalize_idempotent(s@);
        }
        if name.text.as_str().unicode_len() == 0 {
            proof {
                lemma_normalize_nonempty(s@);
            }
            assert(false);
        }
        Some(name)
    }

    /// The normalized text.
    pub fn as_str(&self) -> (r: &str)
        ensures
            r@ == self@,
    {
        self.text.as_str()
    }

    /// A copy of this name.
    pub fn dup(&self) -> (r: PackageName)
        ensures
            r@ == self@,
            self.wf() ==> r.wf(),
    {
        PackageName { text: self.text.clone() }
    }

    /// Whether two names denote the same package.
    pub fn same(&self, other: &PackageName) -> (r: bool)
        ensures
            r == (self@ == other@),
    {
        self.text.eq(&other.text)
    }
}

/// Normalizing is idempotent: a normalized name normalizes to itself.
pub proof fn lemma_normalize_idempotent(s: Seq<char>)
    ensures
        normalize_chars(normalize_chars(s)) == normalize_chars(s),
    decreases s.len(),
{
    if s.len() == 0 {
    } else {
        lemma_normalize_idempotent(s.drop_last());
        let p = normalize_chars(s.drop_last());
        let c = fold_name_char(s.last());
        lemma_fold_fixed(p);
        if c == '-' && p.len() > 0 && p.last() == '-' {
        } else {
            assert(normalize_chars(s) == p.push(c));
            assert(p.push(c).drop_last() =~= p);
            assert(fold_name_char(c) == c) by {
                assert(c == '-' || c == lower_char(s.last()));
            }
        }
    }
}

/// Every character of a normalized name is fixed by folding.
proof fn lemma_fold_fixed(s: Seq<char>)
    ensures
        forall|i: int| 0 <= i < normalize_chars(s).len() ==> fold_name_char(
            #[trigger] normalize_chars(s)[i],
        ) == normalize_chars(s)[i],
    decreases s.len(),
{
    if s.len() == 0 {
    } else {
        lemma_fold_fixed(s.drop_last());
        let p = normalize_chars(s.drop_last());
        let c = fold_name_char(s.last());
        if c == '-' && p.len() > 0 && p.last() == '-' {
        } else {
            assert(fold_name_char(c) == c) by {
                assert(c == '-' || c == lower_char(s.last()));
            }
            assert(forall|i: int| 0 <= i < p.len() ==> #[trigger] p.push(c)[i] == p[i]);
        }
    }
}

/// Normalizing a nonempty name yields a nonempty name.
pub proof fn lemma_normalize_nonempty(s: Seq<char>)
    requires
        s.len() > 0,
    ensures
        normalize_chars(s).len() > 0,
    decreases s.len(),
{
    if s.len() > 1 {
        lemma_normalize_nonempty(s.drop_last());
    }
}

} // verus!
