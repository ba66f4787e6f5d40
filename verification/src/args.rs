//! Command-line argument shapes and the pure part of config-file
//! resolution: normalizing a config file name to carry the `.toml`
//! extension. Parsing the command line and probing the filesystem for
//! the file are the surrounding application's concern.

use vstd::prelude::*;

use crate::paths::copy_bytes;

verus! {

/// The raw command-line arguments: the config file path as given.
pub struct Args {
    /// Config file path.
    pub config: String,
}

/// The resolved arguments: the config file path to load.
pub struct RetArgs {
    /// Config file path, normalized.
    pub config: String,
}

/// The bytes of the extension `.toml`.
pub open spec fn toml_suffix() -> Seq<u8> {
    seq![46u8, 116u8, 111u8, 109u8, 108u8]
}

/// `s` ends with the byte string `suf`.
pub open spec fn ends_with(s: Seq<u8>, suf: Seq<u8>) -> bool {
    s.len() >= suf.len() && s.subrange(s.len() - suf.len(), s.len() as int) == suf
}

fn suffix_bytes() -> (r: Vec<u8>)
    ensures
        r@ == toml_suffix(),
{
    let mut v: Vec<u8> = Vec::new();
    v.push(46);
    v.push(116);
    v.push(111);
    v.push(109);
    v.push(108);
    proof {
        assert(v@ =~= toml_suffix());
    }
    v
}

/// Whether `s` ends with the byte string `suf`.
pub fn ends_with_bytes(s: &Vec<u8>, suf: &Vec<u8>) -> (r: bool)
    ensures
        r == ends_with(s@, suf@),
{
    if s.len() < suf.len() {
        return false;
    }
    let sl: usize = s.len();
    let off: usize = sl - suf.len();
    let mut i: usize = 0;
    while i < suf.len()
        invariant
            i <= suf@.len(),
            sl == s@.len(),
            off == s@.len() - suf@.len(),
            forall|j: int| 0 <= j < i ==> s@[off + j] == suf@[j],
        decreases suf.len() - i,
    {
        if s[off + i] != suf[i] {
            proof {
                assert(s@.subrange(off as int, s@.len() as int)[i as int] == s@[off + i]);
            }
            return false;
        }
        i += 1;
    }
    proof {
        assert(s@.subrange(off as int, s@.len() as int) =~= suf@);
    }
    true
}

/// Normalizes a config file name: returns it unchanged when it already
/// ends with `.toml`, and with `.toml` appended otherwise; either way
/// the result carries the extension.
pub fn with_toml_suffix(name: &Vec<u8>) -> (r: Vec<u8>)
    ensures
        ends_with(r@, toml_suffix()),
        r@ == (if ends_with(name@, toml_suffix()) {
            name@
        } else {
            name@ + toml_suffix()
        }),
{
    let suf = suffix_bytes();
    if ends_with_bytes(name, &suf) {
        return copy_bytes(name);
    }
    let mut out = copy_bytes(name);
    let mut i: usize = 0;
    while i < suf.len()
        invariant
            i <= suf@.len(),
            suf@ == toml_suffix(),
            out@ =~= name@ + suf@.subrange(0, i as int),
        decreases suf.len() - i,
    {
        out.push(suf[i]);
        i += 1;
    }
    proof {
        assert(out@ =~= name@ + toml_suffix());
        assert(out@.subrange(out@.len() - 5, out@.len() as int) =~= toml_suffix());
    }
    out
}

} // verus!
