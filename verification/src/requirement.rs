//! Requirements.
//!
//! A requirement is a package name together with either a version
//! constraint or a locator — never both — plus extras, an environment
//! marker, and the place it was written. An unnamed requirement carries
//! only a locator; its name is discovered later.

use vstd::prelude::*;
use crate::name::PackageName;
use crate::url::{seg_views, Url};

verus! {

/// Where a requirement was written: file and line.
pub struct Origin {
    pub file: String,
    pub line: u64,
}

/// A version constraint or a locator.
pub enum VersionOrUrl {
    /// Any version.
    Any,
    /// A version-specifier text, such as `==3.0.0`.
    Version(String),
    /// A locator.
    Url(Url),
}

/// A named requirement.
pub struct Requirement {
    pub name: PackageName,
    pub version_or_url: VersionOrUrl,
    pub extras: Vec<String>,
    pub marker: Option<String>,
    pub origin: Option<Origin>,
}

/// A requirement with no name: a bare locator.
pub struct UnnamedRequirement {
    pub url: Url,
    pub extras: Vec<String>,
    pub marker: Option<String>,
    pub origin: Option<Origin>,
}

/// A requirement as read from a source, named or not.
pub enum UnresolvedRequirement {
    Named(Requirement),
    Unnamed(UnnamedRequirement),
}

/// A requirement together with the digests it must satisfy.
pub struct RequirementEntry {
    pub requirement: UnresolvedRequirement,
    pub hashes: Vec<String>,
}

/// A directory to install editable.
pub struct EditableRequirement {
    pub url: Url,
    pub path: String,
    pub extras: Vec<String>,
    pub origin: Option<Origin>,
}

/// The value a locator denotes, for contracts: its parts and written form.
pub struct UrlView {
    pub scheme: Seq<char>,
    pub userinfo: Seq<char>,
    pub host: Seq<char>,
    pub port: Option<u16>,
    pub segments: Seq<Seq<char>>,
    pub fragment: Option<Seq<char>>,
    pub verbatim: Seq<char>,
}

/// The value a version-or-locator denotes.
pub enum PinView {
    Any,
    Version(Seq<char>),
    Url(UrlView),
}

/// The value a named requirement denotes.
pub struct ReqView {
    pub name: Seq<char>,
    pub pin: PinView,
    pub extras: Seq<Seq<char>>,
    pub marker: Option<Seq<char>>,
    pub origin: Option<(Seq<char>, u64)>,
}

/// The value an unnamed requirement denotes.
pub struct UnnamedView {
    pub url: UrlView,
    pub extras: Seq<Seq<char>>,
    pub marker: Option<Seq<char>>,
    pub origin: Option<(Seq<char>, u64)>,
}

/// The value an entry denotes.
pub enum AnyReqView {
    Named(ReqView),
    Unnamed(UnnamedView),
}

/// The value an editable declaration denotes.
pub struct EditableView {
    pub url: UrlView,
    pub path: Seq<char>,
    pub extras: Seq<Seq<char>>,
    pub origin: Option<(Seq<char>, u64)>,
}

/// The views of a list of texts.
pub open spec fn text_views(v: Seq<String>) -> Seq<Seq<char>> {
    v.map_values(|s: String| s@)
}

pub open spec fn url_view(u: &Url) -> UrlView {
    UrlView {
        scheme: u.scheme@,
        userinfo: u.userinfo@,
        host: u.host@,
        port: u.port,
        segments: seg_views(u.segments@),
        fragment: match u.fragment {
            Some(f) => Some(f@),
            None => None,
        },
        verbatim: u.verbatim@,
    }
}

pub open spec fn origin_view(o: &Option<Origin>) -> Option<(Seq<char>, u64)> {
    match o {
        Some(o) => Some((o.file@, o.line)),
        None => None,
    }
}

pub open spec fn marker_view(m: &Option<String>) -> Option<Seq<char>> {
    match m {
        Some(m) => Some(m@),
        None => None,
    }
}

pub open spec fn pin_view(p: &VersionOrUrl) -> PinView {
    match p {
        VersionOrUrl::Any => PinView::Any,
        VersionOrUrl::Version(s) => PinView::Version(s@),
        VersionOrUrl::Url(u) => PinView::Url(url_view(u)),
    }
}

pub open spec fn req_view(r: &Requirement) -> ReqView {
    ReqView {
        name: r.name@,
        pin: pin_view(&r.version_or_url),
        extras: text_views(r.extras@),
        marker: marker_view(&r.marker),
        origin: origin_view(&r.origin),
    }
}

pub open spec fn unnamed_view(r: &UnnamedRequirement) -> UnnamedView {
    UnnamedView {
        url: url_view(&r.url),
        extras: text_views(r.extras@),
        marker: marker_view(&r.marker),
        origin: origin_view(&r.origin),
    }
}

pub open spec fn any_req_view(r: &UnresolvedRequirement) -> AnyReqView {
    match r {
        UnresolvedRequirement::Named(n) => AnyReqView::Named(req_view(n)),
        UnresolvedRequirement::Unnamed(u) => AnyReqView::Unnamed(unnamed_view(u)),
    }
}

/// The value an entry denotes: the requirement and its digests.
pub open spec fn entry_view(e: &RequirementEntry) -> (AnyReqView, Seq<Seq<char>>) {
    (any_req_view(&e.requirement), text_views(e.hashes@))
}

pub open spec fn editable_view(e: &EditableRequirement) -> EditableView {
    EditableView {
        url: url_view(&e.url),
        path: e.path@,
        extras: text_views(e.extras@),
        origin: origin_view(&e.origin),
    }
}

/// Copy a list of texts.
pub fn dup_texts(v: &Vec<String>) -> (r: Vec<String>)
    ensures
        text_views(r@) == text_views(v@),
{
    let mut r: Vec<String> = Vec::new();
    let mut i: usize = 0;
    while i < v.len()
        invariant
            i <= v.len(),
            r@.len() == i,
            forall|k: int| 0 <= k < i ==> #[trigger] r@[k]@ == v@[k]@,
        decreases v.len() - i,
    {
        r.push(v[i].clone());
        i = i + 1;
    }
    proof {
        assert(text_views(r@) =~= text_views(v@));
    }
    r
}

impl Origin {
    pub fn dup(&self) -> (r: Origin)
        ensures
            r.file@ == self.file@,
            r.line == self.line,
    {
        Origin { file: self.file.clone(), line: self.line }
    }
}

/// Copy an origin.
pub fn dup_origin(o: &Option<Origin>) -> (r: Option<Origin>)
    ensures
        origin_view(&r) == origin_view(o),
{
    match o {
        Some(o) => Some(Origin { file: o.file.clone(), line: o.line }),
        None => None,
    }
}

/// Copy a marker.
pub fn dup_marker(m: &Option<String>) -> (r: Option<String>)
    ensures
        marker_view(&r) == marker_view(m),
{
    match m {
        Some(m) => Some(m.clone()),
        None => None,
    }
}

impl VersionOrUrl {
    pub fn dup(&self) -> (r: VersionOrUrl)
        ensures
            pin_view(&r) == pin_view(self),
    {
        match self {
            VersionOrUrl::Any => VersionOrUrl::Any,
            VersionOrUrl::Version(s) => VersionOrUrl::Version(s.clone()),
            VersionOrUrl::Url(u) => {
                let d = u.dup();
                proof {
                    assert(url_view(&d) =~= url_view(u));
                }
                VersionOrUrl::Url(d)
            },
        }
    }
}

impl Requirement {
    pub fn dup(&self) -> (r: Requirement)
        ensures
            req_view(&r) == req_view(self),
    {
        let r = Requirement {
            name: self.name.dup(),
            version_or_url: self.version_or_url.dup(),
            extras: dup_texts(&self.extras),
            marker: dup_marker(&self.marker),
            origin: dup_origin(&self.origin),
        };
        proof {
            assert(req_view(&r) =~= req_view(self));
        }
        r
    }
}

impl UnnamedRequirement {
    pub fn dup(&self) -> (r: UnnamedRequirement)
        ensures
            unnamed_view(&r) == unnamed_view(self),
    {
        let d = self.url.dup();
        proof {
            assert(url_view(&d) =~= url_view(&self.url));
        }
        let r = UnnamedRequirement {
            url: d,
            extras: dup_texts(&self.extras),
            marker: dup_marker(&self.marker),
            origin: dup_origin(&self.origin),
        };
        proof {
            assert(unnamed_view(&r) =~= unnamed_view(self));
        }
        r
    }
}

impl UnresolvedRequirement {
    pub fn dup(&self) -> (r: UnresolvedRequirement)
        ensures
            any_req_view(&r) == any_req_view(self),
    {
        match self {
            UnresolvedRequirement::Named(n) => UnresolvedRequirement::Named(n.dup()),
            UnresolvedRequirement::Unnamed(u) => UnresolvedRequirement::Unnamed(u.dup()),
        }
    }
}

impl RequirementEntry {
    pub fn dup(&self) -> (r: RequirementEntry)
        ensures
            entry_view(&r) == entry_view(self),
    {
        let r = RequirementEntry {
            requirement: self.requirement.dup(),
            hashes: dup_texts(&self.hashes),
        };
        proof {
            assert(entry_view(&r) =~= entry_view(self));
        }
        r
    }
}

impl EditableRequirement {
    pub fn dup(&self) -> (r: EditableRequirement)
        ensures
            editable_view(&r) == editable_view(self),
    {
        let d = self.url.dup();
        proof {
            assert(url_view(&d) =~= url_view(&self.url));
        }
        let r = EditableRequirement {
            url: d,
            path: self.path.clone(),
            extras: dup_texts(&self.extras),
            origin: dup_origin(&self.origin),
        };
        proof {
            assert(editable_view(&r) =~= editable_view(self));
        }
        r
    }
}

/// Whether two text lists hold the same texts in the same order.
pub fn texts_eq(a: &Vec<String>, b: &Vec<String>) -> (r: bool)
    ensures
        r == (text_views(a@) == text_views(b@)),
{
    if a.len() != b.len() {
        proof {
            assert(text_views(a@).len() != text_views(b@).len());
        }
        return false;
    }
    let mut i: usize = 0;
    while i < a.len()
        invariant
            i <= a@.len(),
            a@.len() == b@.len(),
            forall|k: int| 0 <= k < i ==> #[trigger] a@[k]@ == b@[k]@,
        decreases a@.len() - i,
    {
        if !crate::strutil::str_eq(a[i].as_str(), b[i].as_str()) {
            proof {
                assert(text_views(a@)[i as int] != text_views(b@)[i as int]);
            }
            return false;
        }
        i = i + 1;
    }
    proof {
        assert forall|k: int| 0 <= k < a@.len() implies text_views(a@)[k] == text_views(b@)[k] by {
            assert(a@[k]@ == b@[k]@);
        }
        assert(text_views(a@) =~= text_views(b@));
    }
    true
}

/// Whether two optional texts agree.
pub fn opt_text_eq(a: &Option<String>, b: &Option<String>) -> (r: bool)
    ensures
        r == (marker_view(a) == marker_view(b)),
{
    match (a, b) {
        (None, None) => true,
        (Some(x), Some(y)) => crate::strutil::str_eq(x.as_str(), y.as_str()),
        _ => false,
    }
}

/// Whether two origins agree.
pub fn origin_eq(a: &Option<Origin>, b: &Option<Origin>) -> (r: bool)
    ensures
        r == (origin_view(a) == origin_view(b)),
{
    match (a, b) {
        (None, None) => true,
        (Some(x), Some(y)) => crate::strutil::str_eq(x.file.as_str(), y.file.as_str()) && x.line
            == y.line,
        _ => false,
    }
}

/// Whether two locators hold the same parts and written form.
pub fn url_eq(a: &Url, b: &Url) -> (r: bool)
    ensures
        r == (url_view(a) == url_view(b)),
{
    if !crate::strutil::str_eq(a.scheme.as_str(), b.scheme.as_str()) {
        return false;
    }
    if !crate::strutil::str_eq(a.userinfo.as_str(), b.userinfo.as_str()) {
        return false;
    }
    if !crate::strutil::str_eq(a.host.as_str(), b.host.as_str()) {
        return false;
    }
    let port_same = match (a.port, b.port) {
        (None, None) => true,
        (Some(x), Some(y)) => x == y,
        _ => false,
    };
    if !port_same {
        return false;
    }
    let frag_same = match (&a.fragment, &b.fragment) {
        (None, None) => true,
        (Some(x), Some(y)) => crate::strutil::str_eq(x.as_str(), y.as_str()),
        _ => false,
    };
    if !frag_same {
        return false;
    }
    if !crate::strutil::str_eq(a.verbatim.as_str(), b.verbatim.as_str()) {
        return false;
    }
    if a.segments.len() != b.segments.len() {
        proof {
            assert(seg_views(a.segments@).len() != seg_views(b.segments@).len());
        }
        return false;
    }
    let mut i: usize = 0;
    while i < a.segments.len()
        invariant
            i <= a.segments@.len(),
            a.segments@.len() == b.segments@.len(),
            forall|k: int| 0 <= k < i ==> #[trigger] a.segments@[k]@ == b.segments@[k]@,
        decreases a.segments@.len() - i,
    {
        if !crate::strutil::str_eq(a.segments[i].as_str(), b.segments[i].as_str()) {
            proof {
                assert(seg_views(a.segments@)[i as int] != seg_views(b.segments@)[i as int]);
            }
            return false;
        }
        i = i + 1;
    }
    proof {
        assert forall|k: int| 0 <= k < a.segments@.len() implies seg_views(a.segments@)[k]
            == seg_views(b.segments@)[k] by {
            assert(a.segments@[k]@ == b.segments@[k]@);
        }
        assert(seg_views(a.segments@) =~= seg_views(b.segments@));
    }
    true
}

/// Whether two pins agree.
pub fn pin_eq(a: &VersionOrUrl, b: &VersionOrUrl) -> (r: bool)
    ensures
        r == (pin_view(a) == pin_view(b)),
{
    match (a, b) {
        (VersionOrUrl::Any, VersionOrUrl::Any) => true,
        (VersionOrUrl::Version(x), VersionOrUrl::Version(y)) => crate::strutil::str_eq(
            x.as_str(),
            y.as_str(),
        ),
        (VersionOrUrl::Url(x), VersionOrUrl::Url(y)) => url_eq(x, y),
        _ => false,
    }
}

/// Whether two named requirements agree.
pub fn req_eq(a: &Requirement, b: &Requirement) -> (r: bool)
    ensures
        r == (req_view(a) == req_view(b)),
{
    a.name.same(&b.name) && pin_eq(&a.version_or_url, &b.version_or_url) && texts_eq(
        &a.extras,
        &b.extras,
    ) && opt_text_eq(&a.marker, &b.marker) && origin_eq(&a.origin, &b.origin)
}

/// Whether two entries agree: requirement and digests.
pub fn entry_eq(a: &RequirementEntry, b: &RequirementEntry) -> (r: bool)
    ensures
        r == (entry_view(a) == entry_view(b)),
{
    let req_same = match (&a.requirement, &b.requirement) {
        (UnresolvedRequirement::Named(x), UnresolvedRequirement::Named(y)) => req_eq(x, y),
        (UnresolvedRequirement::Unnamed(x), UnresolvedRequirement::Unnamed(y)) => url_eq(
            &x.url,
            &y.url,
        ) && texts_eq(&x.extras, &y.extras) && opt_text_eq(&x.marker, &y.marker) && origin_eq(
            &x.origin,
            &y.origin,
        ),
        _ => false,
    };
    req_same && texts_eq(&a.hashes, &b.hashes)
}

/// Whether two editable declarations agree.
pub fn editable_eq(a: &EditableRequirement, b: &EditableRequirement) -> (r: bool)
    ensures
        r == (editable_view(a) == editable_view(b)),
{
    url_eq(&a.url, &b.url) && crate::strutil::str_eq(a.path.as_str(), b.path.as_str()) && texts_eq(
        &a.extras,
        &b.extras,
    ) && origin_eq(&a.origin, &b.origin)
}

} // verus!
