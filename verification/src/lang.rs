use vstd::prelude::*;
use vstd::string::StringSliceAdditionalSpecFns;

verus! {

/// The fixed enumeration of languages the inspector knows how to load.
#[derive(Clone, Copy, Debug, PartialEq, Eq, Structural)]
pub enum Lang {
    Python,
    Rust,
    TypeScript,
    Tsx,
}

impl Lang {
    /// The logical name of the language, used for diagnostics and as the
    /// registry's caching key.
    pub fn name(&self) -> (r: &'static str)
        ensures
            *self == Lang::Python ==> r@ == "python"@,
            *self == Lang::Rust ==> r@ == "rust"@,
            *self == Lang::TypeScript ==> r@ == "typescript"@,
            *self == Lang::Tsx ==> r@ == "tsx"@,
    {
        match self {
            Lang::Python => "python",
            Lang::Rust => "rust",
            Lang::TypeScript => "typescript",
            Lang::Tsx => "tsx",
        }
    }
}

/// True when `suf` is a suffix of `s`.
pub open spec fn has_suffix(s: Seq<u8>, suf: Seq<u8>) -> bool {
    suf.len() <= s.len() && s.subrange(s.len() - suf.len(), s.len() as int) == suf
}

/// The bytes of ".py".
pub open spec fn py_suffix() -> Seq<u8> {
    seq![46u8, 112u8, 121u8]
}

/// The bytes of ".ts".
pub open spec fn ts_suffix() -> Seq<u8> {
    seq![46u8, 116u8, 115u8]
}

/// The bytes of ".tsx".
pub open spec fn tsx_suffix() -> Seq<u8> {
    seq![46u8, 116u8, 115u8, 120u8]
}

/// The bytes of ".rs".
pub open spec fn rs_suffix() -> Seq<u8> {
    seq![46u8, 114u8, 115u8]
}

/// Which language a file name selects: the first of the registered
/// extensions that matches its trailing bytes, if any.
pub open spec fn spec_detect(s: Seq<u8>) -> Option<Lang> {
    if has_suffix(s, py_suffix()) {
        Some(Lang::Python)
    } else if has_suffix(s, ts_suffix()) {
        Some(Lang::TypeScript)
    } else if has_suffix(s, tsx_suffix()) {
        Some(Lang::Tsx)
    } else if has_suffix(s, rs_suffix()) {
        Some(Lang::Rust)
    } else {
        None
    }
}

/// True when `suf` is a suffix of the byte slice `s`.
fn ends_with_bytes(s: &[u8], suf: &[u8]) -> (b: bool)
    ensures
        b == has_suffix(s@, suf@),
{
    if suf.len() > s.len() {
        return false;
    }
    let n: usize = s.len();
    let off: usize = n - suf.len();
    let mut k: usize = 0;
    while k < suf.len()
        invariant
            suf@.len() <= s@.len(),
            n == s@.len(),
            off == s@.len() - suf@.len(),
            0 <= k <= suf@.len(),
            forall|m: int| 0 <= m < k ==> s@[off + m] == suf@[m],
        decreases suf@.len() - k,
    {
        proof {
            assert(off + k < s@.len());
        }
        if s[off + k] != suf[k] {
            proof {
                assert(s@.subrange(off as int, s@.len() as int)[k as int] != suf@[k as int]);
            }
            return false;
        }
        k += 1;
    }
    proof {
        assert(s@.subrange(off as int, s@.len() as int) =~= suf@);
    }
    true
}

/// Infers the language from a file name by its extension. `None` is the
/// normal outcome for an unrecognized extension, not a defect.
pub fn detect_language(filename: &str) -> (r: Option<Lang>)
    ensures
        r == spec_detect(filename.spec_bytes()),
{
    let b = filename.as_bytes();
    // The candidate suffixes, built byte by byte to match the spec-level
    // suffix sequences.
    let mut py: Vec<u8> = Vec::new();
    py.push(46);
    py.push(112);
    py.push(121);
    let mut ts: Vec<u8> = Vec::new();
    ts.push(46);
    ts.push(116);
    ts.push(115);
    let mut tsx: Vec<u8> = Vec::new();
    tsx.push(46);
    tsx.push(116);
    tsx.push(115);
    tsx.push(120);
    let mut rs: Vec<u8> = Vec::new();
    rs.push(46);
    rs.push(114);
    rs.push(115);
    proof {
        assert(py@ =~= py_suffix());
        assert(ts@ =~= ts_suffix());
        assert(tsx@ =~= tsx_suffix());
        assert(rs@ =~= rs_suffix());
    }
    if ends_with_bytes(b, py.as_slice()) {
        Some(Lang::Python)
    } else if ends_with_bytes(b, ts.as_slice()) {
        Some(Lang::TypeScript)
    } else if ends_with_bytes(b, tsx.as_slice()) {
        Some(Lang::Tsx)
    } else if ends_with_bytes(b, rs.as_slice()) {
        Some(Lang::Rust)
    } else {
        None
    }
}

} // verus!
