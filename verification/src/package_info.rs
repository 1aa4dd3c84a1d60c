//! A package record: a name paired with a version, parsed from and
//! rendered to the compact `name@version` line form.

use core::cmp::Ordering;
use vstd::prelude::*;

use crate::semver::spec_compare;
use crate::semver::spec_parse_version;
use crate::semver::version_chars;
use crate::semver::SemVer;
use crate::text::find_char_from;
use crate::text::first_index_of;
use crate::text::lemma_first_index_none;
use crate::text::lemma_first_index_some;

verus! {

#[derive(Debug)]
pub struct PackageInfo {
    pub name: String,
    pub version: SemVer,
}

/// The reading of a `name@version` line: the name is everything before
/// the first `@` and must be non-empty, and what follows that `@` must
/// read as a version. A line that does not fit this shape is skipped,
/// never an error.
pub open spec fn spec_parse_line(s: Seq<char>) -> Option<(Seq<char>, SemVer)> {
    match first_index_of(s, '@') {
        None => None,
        Some(i) => if i == 0 {
            None
        } else {
            match spec_parse_version(s.skip(i + 1)) {
                None => None,
                Some(v) => Some((s.take(i), v)),
            }
        },
    }
}

impl Clone for PackageInfo {
    fn clone(&self) -> (r: Self)
        ensures
            r == *self,
    {
        let r = PackageInfo { name: self.name.clone(), version: self.version };
        proof {
            assert(r == *self);
        }
        r
    }
}

impl PackageInfo {
    /// Reads one definitions line. `None` means the line is skipped:
    /// it is empty, has no `@`, an empty name, or a malformed version.
    pub fn from_pkg_str(pkg_str: &str) -> (r: Option<PackageInfo>)
        ensures
            match r {
                Some(p) => spec_parse_line(pkg_str@) == Some((p.name@, p.version)),
                None => spec_parse_line(pkg_str@) is None,
            },
    {
        let ghost s = pkg_str@;
        let len = pkg_str.unicode_len();
        let i = find_char_from(pkg_str, 0, '@');
        if i == len {
            proof {
                lemma_first_index_none(s, '@');
            }
            return None;
        }
        proof {
            lemma_first_index_some(s, '@', i as int);
        }
        if i == 0 {
            return None;
        }
        let vers_part = pkg_str.substring_char(i + 1, len);
        proof {
            assert(vers_part@ =~= s.skip(i + 1));
        }
        match SemVer::from_str(vers_part) {
            Ok(version) => {
                let name_part = pkg_str.substring_char(0, i);
                proof {
                    assert(name_part@ =~= s.take(i as int));
                }
                Some(PackageInfo { name: name_part.to_owned(), version })
            },
            Err(_) => None,
        }
    }

    /// The `name@version` text of the record.
    pub fn to_string(&self) -> (r: String)
        ensures
            r@ == self.name@ + seq!['@'] + version_chars(self.version),
    {
        let mut s = self.name.clone();
        s.append("@");
        let vers = self.version.to_string();
        s.append(vers.as_str());
        proof {
            reveal_strlit("@");
            assert(s@ =~= self.name@ + seq!['@'] + version_chars(self.version));
        }
        s
    }

    /// Orders two records by their versions alone; the names play no
    /// part.
    pub fn compare_versions(first: &PackageInfo, second: &PackageInfo) -> (r: Ordering)
        ensures
            r == spec_compare(first.version, second.version),
    {
        SemVer::compare_versions(&first.version, &second.version)
    }
}

} // verus!
