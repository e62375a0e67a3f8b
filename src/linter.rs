//! Settings of the clippy and rustfmt runs, and the command lines they give.
use vstd::prelude::*;

verus! {

/// Options for a clippy run, on the stable or the preview toolchain.
pub struct Clippy {
    pub verbose: bool,
    pub no_default_features: bool,
    pub all_features: bool,
    pub features: Option<String>,
    pub preview: bool,
}

impl Default for Clippy {
    fn default() -> (r: Self)
        ensures
            !r.verbose,
            !r.no_default_features,
            !r.all_features,
            r.features is None,
            !r.preview,
    {
        Clippy { verbose: false, no_default_features: false, all_features: false, features: None, preview: false }
    }
}

/// The arguments handed to `cargo` for a clippy run with options `c`.
pub open spec fn clippy_parameters(c: Clippy) -> Seq<Seq<char>> {
    (if c.preview {
        seq!["+nightly"@, "clippy-preview"@, "-Z"@, "unstable-options"@, "--message-format"@, "json"@]
    } else {
        seq!["clippy"@, "--message-format"@, "json"@]
    })
        + (if c.verbose { seq!["--verbose"@] } else { Seq::empty() })
        + (if c.no_default_features { seq!["--no-default-features"@] } else { Seq::empty() })
        + (if c.all_features { seq!["--all-features"@] } else { Seq::empty() })
        + match c.features {
            Some(f) => seq!["--features"@, f@],
            None => Seq::empty(),
        }
        + seq!["--"@, "-W"@, "clippy::all"@, "-W"@, "clippy::pedantic"@]
}

/// The environment variables set for a run: a full backtrace when verbose.
pub open spec fn clippy_envs(verbose: bool) -> Seq<(Seq<char>, Seq<char>)> {
    if verbose {
        seq![("RUST_BACKTRACE"@, "full"@)]
    } else {
        Seq::empty()
    }
}

impl Clippy {
    pub fn set_verbose(&mut self, verbose: bool) -> (r: &mut Self)
        ensures
            *r == (Clippy { verbose, ..*old(self) }),
            *final(self) == *final(r),
    {
        self.verbose = verbose;
        self
    }

    pub fn set_no_default_features(&mut self, no_default_features: bool) -> (r: &mut Self)
        ensures
            *r == (Clippy { no_default_features, ..*old(self) }),
            *final(self) == *final(r),
    {
        self.no_default_features = no_default_features;
        self
    }

    pub fn set_all_features(&mut self, all_features: bool) -> (r: &mut Self)
        ensures
            *r == (Clippy { all_features, ..*old(self) }),
            *final(self) == *final(r),
    {
        self.all_features = all_features;
        self
    }

    pub fn set_features(&mut self, features: Option<String>) -> (r: &mut Self)
        ensures
            *r == (Clippy { features, ..*old(self) }),
            *final(self) == *final(r),
    {
        self.features = features;
        self
    }

    pub fn set_preview(&mut self, preview: bool) -> (r: &mut Self)
        ensures
            *r == (Clippy { preview, ..*old(self) }),
            *final(self) == *final(r),
    {
        self.preview = preview;
        self
    }

    /// The arguments handed to `cargo` for this run.
    pub fn command_parameters(&self) -> (r: Vec<&str>)
        ensures
            r@.map_values(|p: &str| p@) == clippy_parameters(*self),
    {
        let mut params: Vec<&str> = if self.preview {
            vec!["+nightly", "clippy-preview", "-Z", "unstable-options", "--message-format", "json"]
        } else {
            vec!["clippy", "--message-format", "json"]
        };
        if self.verbose {
            params.push("--verbose");
        }
        if self.no_default_features {
            params.push("--no-default-features");
        }
        if self.all_features {
            params.push("--all-features");
        }
        match &self.features {
            Some(f) => {
                params.push("--features");
                params.push(f.as_str());
            },
            None => {},
        }
        params.push("--");
        params.push("-W");
        params.push("clippy::all");
        params.push("-W");
        params.push("clippy::pedantic");
        proof {
            reveal_strlit("+nightly");
            reveal_strlit("clippy-preview");
            reveal_strlit("-Z");
            reveal_strlit("unstable-options");
            reveal_strlit("clippy");
            reveal_strlit("--message-format");
            reveal_strlit("json");
            reveal_strlit("--verbose");
            reveal_strlit("--no-default-features");
            reveal_strlit("--all-features");
            reveal_strlit("--features");
            reveal_strlit("--");
            reveal_strlit("-W");
            reveal_strlit("clippy::all");
            reveal_strlit("clippy::pedantic");
            assert(params@.map_values(|p: &str| p@) =~= clippy_parameters(*self));
        }
        params
    }

    /// The environment variables set for this run.
    pub fn envs(&self) -> (r: Vec<(&str, &str)>)
        ensures
            r@.map_values(|e: (&str, &str)| (e.0@, e.1@)) == clippy_envs(self.verbose),
    {
        let mut envs: Vec<(&str, &str)> = Vec::new();
        if self.verbose {
            envs.push(("RUST_BACKTRACE", "full"));
        }
        proof {
            assert(envs@.map_values(|e: (&str, &str)| (e.0@, e.1@)) =~= clippy_envs(self.verbose));
        }
        envs
    }
}

/// The rustfmt check, which has no options.
pub struct RustFmt {}

impl Default for RustFmt {
    fn default() -> (r: Self) {
        RustFmt {}
    }
}

/// The arguments handed to `cargo` for a rustfmt check that reports in JSON.
pub open spec fn rustfmt_parameters() -> Seq<Seq<char>> {
    seq!["+nightly"@, "fmt"@, "--"@, "--emit"@, "json"@]
}

impl RustFmt {
    pub fn command_parameters() -> (r: Vec<&'static str>)
        ensures
            r@.map_values(|p: &str| p@) == rustfmt_parameters(),
    {
        let params: Vec<&'static str> = vec!["+nightly", "fmt", "--", "--emit", "json"];
        proof {
            assert(params@.map_values(|p: &str| p@) =~= rustfmt_parameters());
        }
        params
    }
}

} // verus!
