use vstd::prelude::*;

verus! {

/// The compiler.
pub struct Compiler {}

impl Compiler {
    pub fn new() -> (r: Compiler)
        ensures
            r == (Compiler {}),
    {
        Compiler {}
    }
}

/// What the compiler is asked to do: the path of the source file.
pub struct CompilerOptions {
    path: String,
}

impl CompilerOptions {
    /// The path of the source file.
    pub closed spec fn spec_path(&self) -> Seq<char> {
        self.path@
    }

    /// Options for the source file `source`; an error when there is none.
    pub fn new(source: Option<String>) -> (r: Result<CompilerOptions, &'static str>)
        ensures
            match source {
                Some(src) => r matches Ok(options) && options.spec_path() == src@,
                None => r matches Err(msg) && msg@ == "no source file specified"@,
            },
    {
        let path = match source {
            Some(src) => src,
            None => {
                return Err("no source file specified");
            },
        };
        Ok(CompilerOptions { path })
    }

    /// The path of the source file.
    pub fn path(&self) -> (r: &str)
        ensures
            r@ == self.spec_path(),
    {
        self.path.as_str()
    }
}

} // verus!
