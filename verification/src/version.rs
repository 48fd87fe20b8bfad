//! The version of the compiler, as the command line reports it.
use crate::text::push_str;
use vstd::prelude::*;

verus! {

/// A build of the compiler.
pub struct Version {
    /// The semantic version, as written: `0.1.0`.
    pub semversion: String,
    /// The git revision built.
    pub git_rev: String,
    /// Whether the working tree had changes.
    pub git_is_dirty: bool,
    /// When it was built, in RFC 3339 form.
    pub build_time: String,
    /// The build profile: `debug`, `release`.
    pub build_profile: String,
}

/// `*` for a build from a working tree with changes, else nothing.
pub open spec fn dirty_mark(dirty: bool) -> Seq<char> {
    if dirty {
        "*"@
    } else {
        ""@
    }
}

impl Version {
    /// The version and a `*` for a dirty build: `0.1.0*`.
    pub fn render_short(&self) -> (r: String)
        ensures
            r@ == self.semversion@ + dirty_mark(self.git_is_dirty),
    {
        let mut out = crate::names::copy_string(&self.semversion);
        if self.git_is_dirty {
            push_str(&mut out, "*");
        }
        proof {
            reveal_strlit("*");
            reveal_strlit("");
            assert(out@ =~= self.semversion@ + dirty_mark(self.git_is_dirty));
        }
        out
    }

    /// The short form, the profile, and when it was built:
    /// `0.1.0 release\nbuilt at: 2022-01-01T00:00:00Z`.
    pub fn render_long(&self) -> (r: String)
        ensures
            r@ == self.semversion@ + dirty_mark(self.git_is_dirty) + " "@ + self.build_profile@ + "\nbuilt at: "@
                + self.build_time@,
    {
        let mut out = self.render_short();
        push_str(&mut out, " ");
        push_str(&mut out, self.build_profile.as_str());
        push_str(&mut out, "\nbuilt at: ");
        push_str(&mut out, self.build_time.as_str());
        out
    }

    /// The version that tests see, the same on every build: `0.0.0`, built at
    /// the Unix epoch.
    pub fn new_test() -> (r: Version)
        ensures
            r.semversion@ == "0.0.0"@,
            r.git_rev@ == "test"@,
            !r.git_is_dirty,
            r.build_time@ == "1970-01-01T00:00:00Z"@,
            r.build_profile@ == "test"@,
    {
        Version {
            semversion: "0.0.0".to_owned(),
            git_rev: "test".to_owned(),
            git_is_dirty: false,
            build_time: "1970-01-01T00:00:00Z".to_owned(),
            build_profile: "test".to_owned(),
        }
    }
}

} // verus!
