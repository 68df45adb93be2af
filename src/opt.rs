//! The run's settings: where to read the patch from and where to write the records.
use vstd::prelude::*;

verus! {

/// The input path and the output path, each optional.
pub struct Opt {
    path: Option<String>,
    output: Option<String>,
}

/// The characters of an optional string.
pub open spec fn opt_view(o: Option<String>) -> Option<Seq<char>> {
    match o {
        Some(s) => Some(s@),
        None => None,
    }
}

/// The characters of an optional string slice.
pub open spec fn opt_str_view(o: Option<&str>) -> Option<Seq<char>> {
    match o {
        Some(s) => Some(s@),
        None => None,
    }
}

fn as_opt_str(o: &Option<String>) -> (r: Option<&str>)
    ensures
        opt_str_view(r) == opt_view(*o),
{
    match o {
        Some(s) => Some(s.as_str()),
        None => None,
    }
}

impl Opt {
    pub closed spec fn spec_path(&self) -> Option<Seq<char>> {
        opt_view(self.path)
    }

    pub closed spec fn spec_output(&self) -> Option<Seq<char>> {
        opt_view(self.output)
    }

    pub fn new(path: Option<String>, output: Option<String>) -> (r: Opt)
        ensures
            r.spec_path() == opt_view(path),
            r.spec_output() == opt_view(output),
    {
        Opt { path, output }
    }

    /// The input path; standard input is read where there is none.
    pub fn path(&self) -> (r: Option<&str>)
        ensures
            opt_str_view(r) == self.spec_path(),
    {
        as_opt_str(&self.path)
    }

    /// The output path; standard output is written where there is none.
    pub fn output(&self) -> (r: Option<&str>)
        ensures
            opt_str_view(r) == self.spec_output(),
    {
        as_opt_str(&self.output)
    }
}

} // verus!
