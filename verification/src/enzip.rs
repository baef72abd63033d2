//! The compression command's configuration and naming logic.
//!
//! Writing the archive itself is a single linear pass with no recursion and
//! no recovery policy, left to the caller at the library's boundary; what is
//! verified here is the part with rules in it: which compression method was
//! chosen, where the archive lands, and how an entry's path is spelled
//! inside the archive.

use vstd::prelude::*;

use crate::paths;
use crate::paths::{ext_of, join_of, opt_bytes_view, stem_of, strip_prefix_of, with_ext_of};

verus! {

/// The compression method to write the archive with.
#[derive(Clone, Copy, Debug, PartialEq, Eq, Structural)]
pub enum Method {
    Stored,
    Deflated,
    Deflate64,
    Bzip2,
}

/// The compression command's configuration.
pub struct ZipCli {
    /// The file or directory to compress.
    pub input: Vec<u8>,
    /// The output directory or file; the current directory by default.
    pub output: Vec<u8>,
    /// Optional legacy password encryption for every entry.
    pub password: Option<Vec<u8>>,
    /// The compression method.
    pub method: Method,
    /// An extension overriding the method's default one.
    pub extend: Option<Vec<u8>>,
}

/// The default archive extension: `bz2` under bzip2, `zip` otherwise.
pub open spec fn default_ext_of(m: Method) -> Seq<u8> {
    if m is Bzip2 {
        seq![98u8, 122u8, 50u8]
    } else {
        seq![122u8, 105u8, 112u8]
    }
}

/// Where the archive is written: when the configured output names no file
/// with an extension, the input's stem becomes the file name under it; the
/// chosen (or default) extension is then applied.
pub open spec fn output_path_of(
    input: Seq<u8>,
    output: Seq<u8>,
    extend: Option<Seq<u8>>,
    m: Method,
) -> Seq<u8> {
    let e = match extend {
        Some(x) => x,
        None => default_ext_of(m),
    };
    let base = if ext_of(output) is None {
        join_of(output, stem_of(input))
    } else {
        output
    };
    with_ext_of(base, e)
}

impl ZipCli {
    /// The chosen compression method.
    pub fn get_method(&self) -> (m: Method)
        ensures
            m == self.method,
    {
        self.method
    }

    /// The path the archive will be written to.
    pub fn get_output(&self) -> (r: Vec<u8>)
        ensures
            r@ == output_path_of(self.input@, self.output@, opt_bytes_view(self.extend), self.method),
    {
        let e: Vec<u8> = match &self.extend {
            Some(x) => paths::clone_bytes(x),
            None => match self.method {
                Method::Bzip2 => vec![98u8, 122u8, 50u8],
                _ => vec![122u8, 105u8, 112u8],
            },
        };
        let base: Vec<u8> = match paths::extension(&self.output) {
            None => {
                let s = paths::stem(&self.input);
                paths::join(&self.output, &s)
            },
            Some(_) => paths::clone_bytes(&self.output),
        };
        paths::with_extension(&base, &e)
    }
}

/// Backslashes normalized to forward slashes: archive entry names use `/`
/// whatever the platform's separator.
pub open spec fn slashes_of(s: Seq<u8>) -> Seq<u8> {
    s.map_values(|b: u8| if b == 92 { 47u8 } else { b })
}

/// The name an entry is stored under inside the archive: its path relative
/// to the compression root, slashes normalized. `None` when the path does
/// not lie under the root.
pub open spec fn entry_name_of(path: Seq<u8>, root: Seq<u8>) -> Option<Seq<u8>> {
    match strip_prefix_of(path, root) {
        None => None,
        Some(rel) => Some(slashes_of(rel)),
    }
}

/// Compute the archive entry name for one walked path.
pub fn entry_name(path: &Vec<u8>, root: &Vec<u8>) -> (r: Option<Vec<u8>>)
    ensures
        opt_bytes_view(r) == entry_name_of(path@, root@),
{
    match paths::strip_prefix(path, root) {
        None => None,
        Some(rel) => {
            let mut out: Vec<u8> = Vec::new();
            let mut i: usize = 0;
            while i < rel.len()
                invariant
                    i <= rel.len(),
                    out@ == slashes_of(rel@).subrange(0, i as int),
                decreases rel.len() - i,
            {
                let b = rel[i];
                if b == 92 {
                    out.push(47);
                } else {
                    out.push(b);
                }
                proof {
                    assert(out@ =~= slashes_of(rel@).subrange(0, i + 1));
                }
                i = i + 1;
            }
            proof {
                assert(out@ =~= slashes_of(rel@));
            }
            Some(out)
        },
    }
}

} // verus!
