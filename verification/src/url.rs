//! A structured locator.
//!
//! A locator is held in parsed form: scheme, userinfo, host, port, path
//! segments and fragment, together with the text exactly as the user wrote
//! it. Identity keys are derived from a canonical rendering — scheme and
//! host lowercased, a default port removed, percent-encoding normalized,
//! trailing empty path segments dropped — so that cosmetic differences in
//! the written form never change an identity.

use vstd::prelude::*;
use crate::error::Error;
use crate::strutil::{dec_str, lower, split_on, to_lower, str_eq, u64_to_dec};

verus! {

/// A parsed locator plus its verbatim written form.
pub struct Url {
    pub scheme: String,
    pub userinfo: String,
    pub host: String,
    pub port: Option<u16>,
    pub segments: Vec<String>,
    pub fragment: Option<String>,
    pub verbatim: String,
}

/// The views of a list of path segments.
pub open spec fn seg_views(segs: Seq<String>) -> Seq<Seq<char>> {
    segs.map_values(|s: String| s@)
}

/// `segs` without its trailing empty segments.
pub open spec fn drop_trailing_empty(segs: Seq<Seq<char>>) -> Seq<Seq<char>>
    decreases segs.len(),
{
    if segs.len() > 0 && segs.last().len() == 0 {
        drop_trailing_empty(segs.drop_last())
    } else {
        segs
    }
}

/// The segments joined, each preceded by a slash.
pub open spec fn joined_path(segs: Seq<Seq<char>>) -> Seq<char>
    decreases segs.len(),
{
    if segs.len() == 0 {
        Seq::empty()
    } else {
        joined_path(segs.drop_last()) + "/"@ + segs.last()
    }
}

/// The port a scheme implies when none is written.
pub open spec fn spec_default_port(scheme_l: Seq<char>) -> Option<u16> {
    if scheme_l == "http"@ {
        Some(80u16)
    } else if scheme_l == "https"@ {
        Some(443u16)
    } else {
        None
    }
}

/// The written port with the scheme's default removed.
pub open spec fn effective_port(scheme_l: Seq<char>, port: Option<u16>) -> Option<u16> {
    match port {
        None => None,
        Some(p) => if spec_default_port(scheme_l) == Some(p) {
            None
        } else {
            Some(p)
        },
    }
}

/// The canonical rendering of the port, possibly empty.
pub open spec fn port_text(scheme_l: Seq<char>, port: Option<u16>) -> Seq<char> {
    match effective_port(scheme_l, port) {
        None => Seq::empty(),
        Some(p) => ":"@ + dec_str(p as nat),
    }
}

/// A name for what `urlencoding::decode` returns: the decoded text when
/// the percent-encoded sequences decode to valid text, and nothing
/// otherwise. The result depends on the input alone.
pub uninterp spec fn percent_decoded(s: Seq<char>) -> Option<Seq<char>>;

/// A path segment in canonical form: its percent-encoding normalized by
/// decoding it, where it decodes; an undecodable segment stands as
/// written.
pub open spec fn canon_seg(s: Seq<char>) -> Seq<char> {
    match percent_decoded(s) {
        Some(d) => d,
        None => s,
    }
}

/// The canonical forms of a list of path segments.
pub open spec fn canon_segs(segs: Seq<Seq<char>>) -> Seq<Seq<char>> {
    segs.map_values(|s: Seq<char>| canon_seg(s))
}

/// The canonical rendering of a locator: scheme and host lowercased, a
/// default port removed, percent-encoding of the path segments normalized,
/// trailing empty segments dropped. With `with_fragment` false the
/// fragment is dropped, which turns the key of one revision of a resource
/// into the key of the resource itself.
pub open spec fn canonical_text(u: &Url, with_fragment: bool) -> Seq<char> {
    lower(u.scheme@) + "://"@ + u.userinfo@ + "@"@ + lower(u.host@) + port_text(
        lower(u.scheme@),
        u.port,
    ) + joined_path(drop_trailing_empty(canon_segs(seg_views(u.segments@)))) + (match u.fragment {
        Some(f) => if with_fragment {
            "#"@ + f@
        } else {
            Seq::<char>::empty()
        },
        None => Seq::empty(),
    })
}

/// Relies on `urlencoding::decode`: the result is a function of the input
/// alone, decoding fails only when the decoded bytes are not valid text,
/// and input without `%` comes back unchanged.
#[verifier::external_body]
fn percent_decode(s: &str) -> (r: Option<String>)
    ensures
        r matches Some(d) ==> percent_decoded(s@) == Some(d@),
        r is None ==> percent_decoded(s@) is None && s@.contains('%'),
        r matches Some(d) ==> (!s@.contains('%') ==> d@ == s@),
{
    match urlencoding::decode(s) {
        Ok(d) => Some(d.into_owned()),
        Err(_) => None,
    }
}

impl Url {
    /// A copy of this locator.
    pub fn dup(&self) -> (r: Url)
        ensures
            r.scheme@ == self.scheme@,
            r.userinfo@ == self.userinfo@,
            r.host@ == self.host@,
            r.port == self.port,
            seg_views(r.segments@) == seg_views(self.segments@),
            r.fragment matches Some(f) ==> self.fragment matches Some(g) && f@ == g@,
            self.fragment matches Some(g) ==> r.fragment matches Some(f) && f@ == g@,
            r.verbatim@ == self.verbatim@,
    {
        let mut segments: Vec<String> = Vec::new();
        let mut i: usize = 0;
        while i < self.segments.len()
            invariant
                i <= self.segments.len(),
                segments@.len() == i,
                forall|k: int| 0 <= k < i ==> #[trigger] segments@[k]@ == self.segments@[k]@,
            decreases self.segments.len() - i,
        {
            segments.push(self.segments[i].clone());
            i = i + 1;
        }
        proof {
            assert(seg_views(segments@) =~= seg_views(self.segments@));
        }
        let fragment = match &self.fragment {
            Some(f) => Some(f.clone()),
            None => None,
        };
        Url {
            scheme: self.scheme.clone(),
            userinfo: self.userinfo.clone(),
            host: self.host.clone(),
            port: self.port,
            segments,
            fragment,
            verbatim: self.verbatim.clone(),
        }
    }

    /// The canonical rendering, keyed either per revision or per resource.
    fn key_text(&self, with_fragment: bool) -> (r: String)
        ensures
            r@ == canonical_text(self, with_fragment),
    {
        let ls = to_lower(self.scheme.as_str());
        let mut r = ls.clone();
        proof {
            assert(r@ == lower(self.scheme@));
        }
        r.append("://");
        proof {
            assert(r@ == lower(self.scheme@) + "://"@);
        }
        r.append(self.userinfo.as_str());
        r.append("@");
        proof {
            assert(r@ == lower(self.scheme@) + "://"@ + self.userinfo@ + "@"@);
        }
        let lh = to_lower(self.host.as_str());
        r.append(lh.as_str());
        let ghost before_port = r@;
        match self.port {
            None => {
                proof {
                    assert(port_text(lower(self.scheme@), self.port) == Seq::<char>::empty());
                }
            },
            Some(p) => {
                proof {
                    reveal_strlit("http");
                    reveal_strlit("https");
                }
                let is_default = (p == 80 && str_eq(ls.as_str(), "http")) || (p == 443 && str_eq(
                    ls.as_str(),
                    "https",
                ));
                if !is_default {
                    r.append(":");
                    let d = u64_to_dec(p as u64);
                    r.append(d.as_str());
                    proof {
                        assert(effective_port(lower(self.scheme@), self.port) == Some(p));
                        assert(r@ == before_port + ":"@ + dec_str(p as nat));
                        assert(r@ =~= before_port + port_text(lower(self.scheme@), self.port));
                    }
                } else {
                    proof {
                        assert(effective_port(lower(self.scheme@), self.port) is None);
                    }
                }
            },
        }
        let ghost base = r@;
        proof {
            assert(base =~= lower(self.scheme@) + "://"@ + self.userinfo@ + "@"@ + lower(
                self.host@,
            ) + port_text(lower(self.scheme@), self.port));
        }
        // Canonical segments: percent-encoding normalized, trailing empty
        // ones dropped.
        let mut canon: Vec<String> = Vec::new();
        let mut i: usize = 0;
        while i < self.segments.len()
            invariant
                i <= self.segments.len(),
                canon@.len() == i,
                forall|k: int| 0 <= k < i ==> #[trigger] canon@[k]@ == canon_seg(
                    self.segments@[k]@,
                ),
            decreases self.segments.len() - i,
        {
            let seg = match percent_decode(self.segments[i].as_str()) {
                Some(d) => d,
                None => self.segments[i].clone(),
            };
            proof {
                assert(seg@ == canon_seg(self.segments@[i as int]@));
            }
            canon.push(seg);
            i = i + 1;
        }
        proof {
            assert forall|k: int| 0 <= k < canon@.len() implies seg_views(canon@)[k] == canon_segs(
                seg_views(self.segments@),
            )[k] by {
                assert(canon@[k]@ == canon_seg(self.segments@[k]@));
            }
            assert(seg_views(canon@) =~= canon_segs(seg_views(self.segments@)));
        }
        while canon.len() > 0 && canon[canon.len() - 1].as_str().unicode_len() == 0
            invariant
                drop_trailing_empty(seg_views(canon@)) == drop_trailing_empty(
                    canon_segs(seg_views(self.segments@)),
                ),
            decreases canon.len(),
        {
            let ghost before = seg_views(canon@);
            canon.pop();
            proof {
                assert(seg_views(canon@) =~= before.drop_last());
            }
        }
        let ghost cvs = seg_views(canon@);
        proof {
            assert(cvs == drop_trailing_empty(canon_segs(seg_views(self.segments@))));
        }
        let mut j: usize = 0;
        while j < canon.len()
            invariant
                j <= canon.len(),
                cvs == seg_views(canon@),
                r@ == base + joined_path(cvs.subrange(0, j as int)),
            decreases canon.len() - j,
        {
            r.append("/");
            r.append(canon[j].as_str());
            j = j + 1;
            proof {
                assert(cvs.subrange(0, j as int).drop_last() =~= cvs.subrange(0, j - 1));
                assert(cvs.subrange(0, j as int).last() == cvs[j - 1]);
                assert(canon@[j - 1]@ == cvs[j - 1]);
                assert(r@ =~= base + joined_path(cvs.subrange(0, j as int)));
            }
        }
        proof {
            assert(cvs.subrange(0, canon@.len() as int) =~= cvs);
        }
        match &self.fragment {
            Some(f) => {
                if with_fragment {
                    r.append("#");
                    r.append(f.as_str());
                }
            },
            None => {},
        }
        proof {
            assert(r@ =~= canonical_text(self, with_fragment));
        }
        r
    }

    /// The key that identifies this exact version or content.
    pub fn distribution_key(&self) -> (r: String)
        ensures
            r@ == canonical_text(self, true),
    {
        self.key_text(true)
    }

    /// The key that identifies the source of artifacts, one for all
    /// revisions: the per-revision fragment is dropped.
    pub fn resource_key(&self) -> (r: String)
        ensures
            r@ == canonical_text(self, false),
    {
        self.key_text(false)
    }

    /// The filename a locator names: its last path segment, decoded.
    pub fn filename(&self) -> (r: Result<String, Error>)
        ensures
            match r {
                Ok(f) => self.segments@.len() > 0 && percent_decoded(self.segments@.last()@)
                    == Some(f@) && f@ == canon_seg(self.segments@.last()@),
                Err(e) => match e {
                    Error::UrlFilename { url } => self.segments@.len() == 0 && url@
                        == self.verbatim@,
                    Error::UrlDecode { url } => self.segments@.len() > 0 && url@
                        == self.verbatim@ && percent_decoded(self.segments@.last()@) is None
                        && self.segments@.last()@.contains('%'),
                    _ => false,
                },
            },
            self.segments@.len() > 0 && !self.segments@.last()@.contains('%') ==> (r matches Ok(f)
                && f@ == self.segments@.last()@),
    {
        if self.segments.len() == 0 {
            return Err(Error::UrlFilename { url: self.verbatim.clone() });
        }
        let last = &self.segments[self.segments.len() - 1];
        match percent_decode(last.as_str()) {
            Some(d) => Ok(d),
            None => {
                proof {
                    assert(self.segments@.last()@.contains('%'));
                }
                Err(Error::UrlDecode { url: self.verbatim.clone() })
            },
        }
    }
}

/// Whether two written ports differ only cosmetically for a scheme: equal,
/// or one leaves the scheme's default implicit where the other writes it.
pub open spec fn port_cosmetic(scheme_l: Seq<char>, a: Option<u16>, b: Option<u16>) -> bool {
    a == b || (a is None && spec_default_port(scheme_l) == b) || (b is None && spec_default_port(
        scheme_l,
    ) == a)
}

/// Whether two segment lists differ only cosmetically: equal once each
/// segment's percent-encoding is normalized and trailing empty segments
/// are dropped.
pub open spec fn path_cosmetic(a: Seq<Seq<char>>, b: Seq<Seq<char>>) -> bool {
    drop_trailing_empty(canon_segs(a)) == drop_trailing_empty(canon_segs(b))
}

/// Identity is deterministic under cosmetic differences: two locators that
/// differ only in letter case of scheme or host, in writing a scheme's
/// default port explicitly, in the percent-encoding of their path, or in
/// trailing slashes, get the same keys.
pub proof fn lemma_identity_cosmetic(a: &Url, b: &Url, with_fragment: bool)
    requires
        lower(a.scheme@) == lower(b.scheme@),
        a.userinfo@ == b.userinfo@,
        lower(a.host@) == lower(b.host@),
        port_cosmetic(lower(a.scheme@), a.port, b.port),
        path_cosmetic(seg_views(a.segments@), seg_views(b.segments@)),
        a.fragment == b.fragment,
    ensures
        canonical_text(a, with_fragment) == canonical_text(b, with_fragment),
{
    assert(effective_port(lower(a.scheme@), a.port) == effective_port(lower(b.scheme@), b.port));
}

} // verus!
