//! Builds and runs what was generated: what each step of it comes to.
use crate::text::{Chars, chars_of, join2, join4};
use super::config::CompilerConfig;
use super::error::{Error, ErrorView};
use vstd::prelude::*;
use vstd::utf8::encode_utf8;

verus! {

/// The manifest of the generated project.
pub const CARGO_TOML: &'static str = "[package]\nname = \"xiyi_output\"\nversion = \"0.1.0\"\nedition = \"2024\"\n\n[dependencies]\n# tch = { version = \"0.13\", features = [\"download-libtorch\"] }\n\n[[bin]]\nname = \"xiyi_output\"\npath = \"src/main.rs\"\n";

/// The hash before any byte.
pub const FNV_OFFSET: u64 = 14695981039346656037;

/// What the hash is multiplied by for each byte.
pub const FNV_PRIME: u64 = 1099511628211;

/// The hash `h` after bytes.
pub open spec fn fnv(h: u64, bytes: Seq<u8>) -> u64
    decreases bytes.len(),
{
    if bytes.len() == 0 {
        h
    } else {
        (fnv(h, bytes.drop_last()) ^ (bytes.last() as u64)).wrapping_mul(FNV_PRIME)
    }
}

/// The lower-case hexadecimal digit of value `d`.
pub open spec fn hex_lower_char(d: int) -> char {
    if d < 10 {
        (d + 48) as char
    } else {
        (d + 87) as char
    }
}

/// The last `width` digits of `n` in lower-case hexadecimal.
pub open spec fn hex_lower(n: nat, width: nat) -> Chars
    decreases width,
{
    if width == 0 {
        Seq::empty()
    } else {
        hex_lower(n / 16, (width - 1) as nat).push(hex_lower_char((n % 16) as int))
    }
}

/// The name of the directory in which the build of a source keeps its work: the
/// same for the same source, standard library and manifest, in every process.
pub open spec fn key_of(filename: Chars, stdlib_path: Chars, manifest: Chars) -> Chars {
    let bytes = encode_utf8(filename) + seq![0u8] + encode_utf8(stdlib_path) + seq![0u8]
        + encode_utf8(manifest);
    hex_lower(fnv(FNV_OFFSET, bytes) as nat, 16)
}

/// The hash of two parts is that of the second from that of the first on.
proof fn lemma_fnv_concat(h: u64, a: Seq<u8>, b: Seq<u8>)
    ensures
        fnv(h, a + b) == fnv(fnv(h, a), b),
    decreases b.len(),
{
    if b.len() == 0 {
        assert(a + b =~= a);
    } else {
        assert((a + b).drop_last() =~= a + b.drop_last());
        lemma_fnv_concat(h, a, b.drop_last());
    }
}

/// The hash `h` after bytes.
fn feed(h: u64, bytes: &[u8]) -> (r: u64)
    ensures
        r == fnv(h, bytes@),
{
    let mut hash: u64 = h;
    let mut i: usize = 0;
    assert(bytes@.take(0) =~= Seq::empty());
    while i < bytes.len()
        invariant
            i <= bytes@.len(),
            hash == fnv(h, bytes@.take(i as int)),
        decreases bytes@.len() - i,
    {
        proof {
            let t = bytes@.take(i + 1);
            assert(t.drop_last() =~= bytes@.take(i as int));
            assert(t.last() == bytes@[i as int]);
        }
        hash = (hash ^ (bytes[i] as u64)).wrapping_mul(FNV_PRIME);
        i = i + 1;
    }
    assert(bytes@.take(i as int) =~= bytes@);
    hash
}

/// The last `width` digits of `n` in lower-case hexadecimal.
fn hex_lower_of(n: u64, width: usize) -> (r: String)
    ensures
        r@ == hex_lower(n as nat, width as nat),
    decreases width,
{
    if width == 0 {
        let r = String::new();
        assert(r@ =~= Seq::empty());
        return r;
    }
    let low: u8 = (n % 16) as u8;
    let d: u8 = if low < 10 {
        48u8 + low
    } else {
        87u8 + low
    };
    let mut out: String = hex_lower_of(n / 16, width - 1);
    out.push(d as char);
    out
}

/// The name of the directory in which the build keeps its work.
pub fn cache_key(config: &CompilerConfig) -> (r: String)
    ensures
        r@ == key_of(config@.filename, config@.stdlib_path, CARGO_TOML@),
{
    let zero: Vec<u8> = vec![0u8];
    let h1: u64 = feed(FNV_OFFSET, config.filename.as_str().as_bytes());
    let h2: u64 = feed(h1, zero.as_slice());
    let h3: u64 = feed(h2, config.stdlib_path.as_str().as_bytes());
    let h4: u64 = feed(h3, zero.as_slice());
    let h5: u64 = feed(h4, CARGO_TOML.as_bytes());
    proof {
        let a = encode_utf8(config@.filename);
        let z = seq![0u8];
        let b = encode_utf8(config@.stdlib_path);
        let c = encode_utf8(CARGO_TOML@);
        assert(zero@ =~= z);
        lemma_fnv_concat(FNV_OFFSET, a, z);
        lemma_fnv_concat(FNV_OFFSET, a + z, b);
        lemma_fnv_concat(FNV_OFFSET, a + z + b, z);
        lemma_fnv_concat(FNV_OFFSET, a + z + b + z, c);
    }
    hex_lower_of(h5, 16)
}

/// Whether a character is a hexadecimal digit in lower case.
pub open spec fn is_lower_hex(c: char) -> bool {
    ('0' <= c && c <= '9') || ('a' <= c && c <= 'f')
}

/// The key is made of sixteen hexadecimal digits in lower case, whatever it is the
/// key of.
pub proof fn key_has_sixteen_digits(filename: Chars, stdlib_path: Chars, manifest: Chars)
    ensures
        key_of(filename, stdlib_path, manifest).len() == 16,
        forall|k: int|
            0 <= k < 16 ==> is_lower_hex(#[trigger] key_of(filename, stdlib_path, manifest)[k]),
{
    let bytes = encode_utf8(filename) + seq![0u8] + encode_utf8(stdlib_path) + seq![0u8]
        + encode_utf8(manifest);
    lemma_hex_lower(fnv(FNV_OFFSET, bytes) as nat, 16);
}

/// As many digits as were asked for, and nothing but digits.
proof fn lemma_hex_lower(n: nat, width: nat)
    ensures
        hex_lower(n, width).len() == width,
        forall|k: int| 0 <= k < width ==> is_lower_hex(#[trigger] hex_lower(n, width)[k]),
    decreases width,
{
    if width > 0 {
        lemma_hex_lower(n / 16, (width - 1) as nat);
        let all = hex_lower(n, width);
        let front = hex_lower(n / 16, (width - 1) as nat);
        assert forall|k: int| 0 <= k < width implies is_lower_hex(#[trigger] all[k]) by {
            if k < width - 1 {
                assert(all[k] == front[k]);
            }
        }
    }
}

/// The directory of the build's products.
pub fn profile(release: bool) -> (r: &'static str)
    ensures
        r@ == (if release {
            "release"@
        } else {
            "debug"@
        }),
{
    if release {
        "release"
    } else {
        "debug"
    }
}

/// Why generated source could not be printed.
#[derive(Debug)]
pub enum PrintFailure {
    /// The reader has gone.
    BrokenPipe,
    Other(String),
}

/// What is printed of generated source: the source, with a line break at its end.
pub fn printed_source(rust_code: &str) -> (r: String)
    ensures
        r@ == (if rust_code@.len() > 0 && rust_code@.last() == '\n' {
            rust_code@
        } else {
            rust_code@.push('\n')
        }),
{
    let chars = chars_of(rust_code);
    let n: usize = chars.len();
    let mut text = rust_code.to_string();
    if n == 0 || chars[n - 1] != '\n' {
        text.push('\n');
    }
    text
}

/// What a print of the generated source comes to: a reader that has gone is no
/// error.
pub fn after_print(printed: Result<(), PrintFailure>) -> (r: Result<i32, Error>)
    ensures
        match printed {
            Err(PrintFailure::Other(m)) => r matches Err(e) && e@ == ErrorView::Run(
                "failed to write stdout: "@ + m@,
            ),
            _ => r == Ok::<i32, Error>(0),
        },
{
    match printed {
        Err(PrintFailure::Other(m)) => Err(
            Error::Run(join2("failed to write stdout: ", m.as_str())),
        ),
        _ => Ok(0),
    }
}

/// What a build comes to, given whether it succeeded or why it could not start.
pub fn after_build(status: Result<bool, String>) -> (r: Result<(), Error>)
    ensures
        match status {
            Err(m) => r matches Err(e) && e@ == ErrorView::Build("failed to run cargo: "@ + m@),
            Ok(false) => r matches Err(e) && e@ == ErrorView::Build("cargo build failed"@),
            Ok(true) => r is Ok,
        },
{
    match status {
        Err(m) => Err(Error::Build(join2("failed to run cargo: ", m.as_str()))),
        Ok(success) => {
            if success {
                Ok(())
            } else {
                Err(Error::Build("cargo build failed".to_string()))
            }
        },
    }
}

/// What the search for the executable comes to.
pub fn after_search(found: bool, path: &str) -> (r: Result<(), Error>)
    ensures
        if found {
            r is Ok
        } else {
            r matches Err(e) && e@ == ErrorView::Build(
                "executable not found after build: "@ + path@,
            )
        },
{
    if found {
        Ok(())
    } else {
        Err(Error::Build(join2("executable not found after build: ", path)))
    }
}

/// What a run of the executable comes to: its exit code, or 1 where it has none,
/// or why it could not start.
pub fn after_run(path: &str, status: Result<Option<i32>, String>) -> (r: Result<i32, Error>)
    ensures
        match status {
            Err(m) => r matches Err(e) && e@ == ErrorView::Run(
                "failed to run "@ + path@ + ": "@ + m@,
            ),
            Ok(Some(code)) => r == Ok::<i32, Error>(code),
            Ok(None) => r == Ok::<i32, Error>(1),
        },
{
    match status {
        Err(m) => Err(Error::Run(join4("failed to run ", path, ": ", m.as_str()))),
        Ok(Some(code)) => Ok(code),
        Ok(None) => Ok(1),
    }
}

} // verus!
