//! Prebuilt-artifact filenames.
//!
//! A prebuilt archive's filename encodes the package name, the version, an
//! optional build tag and three compatibility tags, separated by dashes and
//! closed by the `.whl` suffix: `name-version(-build)?-python-abi-platform.whl`.

use vstd::prelude::*;
use crate::error::Error;
use crate::name::{normalize_chars, valid_name_text, PackageName};
use crate::strutil::{lower, split_on};
use crate::version::{release_of, valid_version_text, Version};

verus! {

/// Whether `s` ends in the `.whl` suffix, written exactly so.
pub open spec fn has_whl_suffix(s: Seq<char>) -> bool {
    s.len() >= 4 && s.subrange(s.len() - 4, s.len() as int) == ".whl"@
}

/// Whether `s` ends in the `.whl` suffix in any letter case.
pub open spec fn has_whl_suffix_ci(s: Seq<char>) -> bool {
    s.len() >= 4 && lower(s.subrange(s.len() - 4, s.len() as int)) == ".whl"@
}

/// The filename with the `.whl` suffix removed.
pub open spec fn whl_stem(s: Seq<char>) -> Seq<char> {
    s.subrange(0, s.len() - 4)
}

/// The dash-separated fields of the stem.
pub open spec fn whl_parts(s: Seq<char>) -> Seq<Seq<char>> {
    split_on(whl_stem(s), '-')
}

/// Whether `s` is a well-formed prebuilt-artifact filename: the suffix, five
/// or six fields, a valid name and a valid version.
pub open spec fn valid_whl_text(s: Seq<char>) -> bool {
    &&& has_whl_suffix(s)
    &&& (whl_parts(s).len() == 5 || whl_parts(s).len() == 6)
    &&& valid_name_text(whl_parts(s)[0])
    &&& valid_version_text(whl_parts(s)[1])
}

/// A parsed prebuilt-artifact filename.
pub struct WheelFilename {
    pub name: PackageName,
    pub version: Version,
    pub build_tag: Option<String>,
    pub python_tag: String,
    pub abi_tag: String,
    pub platform_tag: String,
}

impl WheelFilename {
    /// What a correct parse of `s` yields.
    pub open spec fn parses(&self, s: Seq<char>) -> bool {
        let parts = whl_parts(s);
        &&& self.name@ == normalize_chars(parts[0])
        &&& self.name.wf()
        &&& self.version@ == release_of(parts[1])
        &&& self.version.text_view() == parts[1]
        &&& self.version.wf()
        &&& if parts.len() == 6 {
            self.build_tag matches Some(b) && b@ == parts[2] && self.python_tag@ == parts[3]
                && self.abi_tag@ == parts[4] && self.platform_tag@ == parts[5]
        } else {
            self.build_tag is None && self.python_tag@ == parts[2] && self.abi_tag@ == parts[3]
                && self.platform_tag@ == parts[4]
        }
    }

    /// Read a prebuilt-artifact filename. Returns the parsed fields exactly
    /// when the text is well formed, and the offending filename otherwise.
    pub fn parse(s: &str) -> (r: Result<WheelFilename, Error>)
        ensures
            match r {
                Ok(w) => valid_whl_text(s@) && w.parses(s@),
                Err(e) => !valid_whl_text(s@) && (e matches Error::InvalidFilename { filename }
                    && filename@ == s@),
            },
    {
        let n = s.unicode_len();
        if n < 4 {
            return Err(Error::InvalidFilename { filename: s.to_owned() });
        }
        let suffix = s.substring_char(n - 4, n);
        if !crate::strutil::str_eq(suffix, ".whl") {
            return Err(Error::InvalidFilename { filename: s.to_owned() });
        }
        let stem = s.substring_char(0, n - 4);
        let parts = crate::strutil::split_str(stem, '-');
        let ghost sparts = whl_parts(s@);
        proof {
            assert(stem@ == whl_stem(s@));
            assert(parts@.map_values(|p: String| p@) == sparts);
        }
        if !(parts.len() == 5 || parts.len() == 6) {
            return Err(Error::InvalidFilename { filename: s.to_owned() });
        }
        proof {
            assert(parts@.map_values(|p: String| p@)[0] == parts@[0]@);
            assert(parts@.map_values(|p: String| p@)[1] == parts@[1]@);
            assert(parts@.map_values(|p: String| p@)[2] == parts@[2]@);
            assert(parts@.map_values(|p: String| p@)[3] == parts@[3]@);
            assert(parts@.map_values(|p: String| p@)[4] == parts@[4]@);
            if parts@.len() == 6 {
                assert(parts@.map_values(|p: String| p@)[5] == parts@[5]@);
            }
        }
        let name = match PackageName::parse(parts[0].as_str()) {
            Some(name) => name,
            None => {
                return Err(Error::InvalidFilename { filename: s.to_owned() });
            },
        };
        let version = match Version::parse(parts[1].as_str()) {
            Some(version) => version,
            None => {
                return Err(Error::InvalidFilename { filename: s.to_owned() });
            },
        };
        if parts.len() == 6 {
            Ok(WheelFilename {
                name,
                version,
                build_tag: Some(parts[2].clone()),
                python_tag: parts[3].clone(),
                abi_tag: parts[4].clone(),
                platform_tag: parts[5].clone(),
            })
        } else {
            Ok(WheelFilename {
                name,
                version,
                build_tag: None,
                python_tag: parts[2].clone(),
                abi_tag: parts[3].clone(),
                platform_tag: parts[4].clone(),
            })
        }
    }

    /// A copy of this filename.
    pub fn dup(&self) -> (r: WheelFilename)
        ensures
            r.name@ == self.name@,
            r.name.wf() == self.name.wf(),
            r.version@ == self.version@,
            r.version.text_view() == self.version.text_view(),
            r.version.wf() == self.version.wf(),
            r.build_tag matches Some(b) ==> self.build_tag matches Some(c) && b@ == c@,
            self.build_tag matches Some(c) ==> r.build_tag matches Some(b) && b@ == c@,
            r.python_tag@ == self.python_tag@,
            r.abi_tag@ == self.abi_tag@,
            r.platform_tag@ == self.platform_tag@,
    {
        WheelFilename {
            name: self.name.dup(),
            version: self.version.dup(),
            build_tag: match &self.build_tag {
                Some(b) => Some(b.clone()),
                None => None,
            },
            python_tag: self.python_tag.clone(),
            abi_tag: self.abi_tag.clone(),
            platform_tag: self.platform_tag.clone(),
        }
    }
}

/// Whether a filename, taken from a locator's last path segment, looks like
/// a prebuilt artifact: the suffix in any letter case decides.
pub fn is_whl_name(s: &str) -> (r: bool)
    ensures
        r == has_whl_suffix_ci(s@),
{
    let n = s.unicode_len();
    if n < 4 {
        return false;
    }
    let suffix = s.substring_char(n - 4, n);
    let ls = crate::strutil::to_lower(suffix);
    crate::strutil::str_eq(ls.as_str(), ".whl")
}

} // verus!
