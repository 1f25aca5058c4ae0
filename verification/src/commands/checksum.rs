//! File checksums: digests of file contents in lowercase hex, and comparing
//! them with an expected value.
use vstd::prelude::*;
use sha1::Digest;
use crate::text::{to_lowercase, std_lowercase, str_eq, chars_of};

verus! {

/// What `md5::compute` gives for some bytes.
pub uninterp spec fn md5_digest(data: Seq<u8>) -> Seq<u8>;

/// What SHA-1 (`sha1::Sha1`) gives for some bytes.
pub uninterp spec fn sha1_digest(data: Seq<u8>) -> Seq<u8>;

/// What SHA-256 (`sha2::Sha256`) gives for some bytes.
pub uninterp spec fn sha256_digest(data: Seq<u8>) -> Seq<u8>;

/// What SHA-512 (`sha2::Sha512`) gives for some bytes.
pub uninterp spec fn sha512_digest(data: Seq<u8>) -> Seq<u8>;

/// What `blake3::hash` gives for some bytes.
pub uninterp spec fn blake3_digest(data: Seq<u8>) -> Seq<u8>;

/// The lowercase hex digit for `n < 16`.
pub open spec fn hex_char(n: nat) -> char {
    if n < 10 {
        ((48 + n) as u32) as char
    } else {
        ((87 + n) as u32) as char
    }
}

/// Lowercase hex of some bytes: two digits per byte, high half first.
pub open spec fn hex_spec(b: Seq<u8>) -> Seq<char>
    decreases b.len(),
{
    if b.len() == 0 {
        Seq::empty()
    } else {
        hex_spec(b.drop_last()) + seq![hex_char((b.last() / 16) as nat), hex_char((b.last() % 16) as nat)]
    }
}

/// Whether `c` is a lowercase hex digit.
pub open spec fn is_lower_hex(c: char) -> bool {
    ('0' <= c <= '9') || ('a' <= c <= 'f')
}

/// A checksum is lowercase hex, two digits for each byte of the digest.
pub proof fn hex_is_lowercase_two_per_byte(b: Seq<u8>)
    ensures
        hex_spec(b).len() == 2 * b.len(),
        forall|i: int| 0 <= i < hex_spec(b).len() ==> is_lower_hex(#[trigger] hex_spec(b)[i]),
    decreases b.len(),
{
    if b.len() > 0 {
        hex_is_lowercase_two_per_byte(b.drop_last());
        let hi = (b.last() / 16) as nat;
        let lo = (b.last() % 16) as nat;
        let prev = hex_spec(b.drop_last());
        assert(hex_spec(b) == prev + seq![hex_char(hi), hex_char(lo)]);
        assert forall|i: int| 0 <= i < hex_spec(b).len() implies is_lower_hex(#[trigger] hex_spec(b)[i]) by {
            if i < prev.len() {
                assert(hex_spec(b)[i] == prev[i]);
            } else if i == prev.len() {
                assert(hex_spec(b)[i] == hex_char(hi));
            } else {
                assert(hex_spec(b)[i] == hex_char(lo));
            }
        }
    }
}

/// The MD5 digest of `data` (`md5::compute`); 16 bytes.
#[verifier::external_body]
fn md5_bytes(data: &[u8]) -> (r: Vec<u8>)
    ensures
        r@ == md5_digest(data@),
        r@.len() == 16,
{
    md5::compute(data).0.to_vec()
}

/// The SHA-1 digest of `data` (`Digest::digest` of `sha1::Sha1`); 20 bytes.
#[verifier::external_body]
fn sha1_bytes(data: &[u8]) -> (r: Vec<u8>)
    ensures
        r@ == sha1_digest(data@),
        r@.len() == 20,
{
    sha1::Sha1::digest(data).to_vec()
}

/// The SHA-256 digest of `data` (`Digest::digest` of `sha2::Sha256`); 32 bytes.
#[verifier::external_body]
fn sha256_bytes(data: &[u8]) -> (r: Vec<u8>)
    ensures
        r@ == sha256_digest(data@),
        r@.len() == 32,
{
    sha2::Sha256::digest(data).to_vec()
}

/// The SHA-512 digest of `data` (`Digest::digest` of `sha2::Sha512`); 64 bytes.
#[verifier::external_body]
fn sha512_bytes(data: &[u8]) -> (r: Vec<u8>)
    ensures
        r@ == sha512_digest(data@),
        r@.len() == 64,
{
    sha2::Sha512::digest(data).to_vec()
}

/// The BLAKE3 hash of `data` (`blake3::hash`, its `as_bytes`); 32 bytes.
#[verifier::external_body]
fn blake3_bytes(data: &[u8]) -> (r: Vec<u8>)
    ensures
        r@ == blake3_digest(data@),
        r@.len() == 32,
{
    blake3::hash(data).as_bytes().to_vec()
}

/// `hex::encode`: as its source shows, each byte becomes two characters of
/// "0123456789abcdef", the high half first.
#[verifier::external_body]
fn hex_encode(data: &[u8]) -> (r: String)
    ensures
        r@ == hex_spec(data@),
{
    hex::encode(data)
}

/// A file to check: its path, the expected digest and the algorithm's name.
#[derive(Clone, Debug)]
pub struct FileVerifyItem {
    pub path: String,
    pub expected: String,
    pub algorithm: String,
}

/// The digest of `data` under the algorithm called `algo` (already lower-cased).
pub open spec fn digest_under(algo: Seq<char>, data: Seq<u8>) -> Option<Seq<u8>> {
    if algo == "md5"@ {
        Some(md5_digest(data))
    } else if algo == "sha1"@ {
        Some(sha1_digest(data))
    } else if algo == "sha256"@ {
        Some(sha256_digest(data))
    } else if algo == "sha512"@ {
        Some(sha512_digest(data))
    } else if algo == "blake3"@ {
        Some(blake3_digest(data))
    } else {
        None
    }
}

/// The hex checksum of `data` under `algorithm` (matched without regard to
/// case), or the error for an unknown algorithm.
pub open spec fn checksum_spec(data: Seq<u8>, algorithm: Seq<char>) -> Result<Seq<char>, Seq<char>> {
    match digest_under(std_lowercase(algorithm), data) {
        Some(d) => Ok(hex_spec(d)),
        None => Err("不支持的算法"@),
    }
}

/// The number of hex digits a checksum under `algo` (lower-cased) has: 32
/// for MD5, 40 for SHA-1, 64 for SHA-256, 128 for SHA-512 and 64 for BLAKE3.
pub open spec fn hex_len_under(algo: Seq<char>) -> nat {
    if algo == "md5"@ {
        32
    } else if algo == "sha1"@ {
        40
    } else if algo == "sha256"@ {
        64
    } else if algo == "sha512"@ {
        128
    } else if algo == "blake3"@ {
        64
    } else {
        0
    }
}

/// The lowercase hex checksum of some file contents.
pub fn compute_checksum(data: &[u8], algorithm: &str) -> (r: Result<String, String>)
    ensures
        match r {
            Ok(h) => checksum_spec(data@, algorithm@) == Ok::<Seq<char>, Seq<char>>(h@),
            Err(e) => checksum_spec(data@, algorithm@) == Err::<Seq<char>, Seq<char>>(e@),
        },
        r matches Ok(h) ==> h@.len() == hex_len_under(std_lowercase(algorithm@)),
        r matches Ok(h) ==> forall|i: int| 0 <= i < h@.len() ==> is_lower_hex(#[trigger] h@[i]),
{
    let lower = to_lowercase(algorithm);
    let a = lower.as_str();
    if str_eq(a, "md5") {
        let d = md5_bytes(data);
        proof {
            hex_is_lowercase_two_per_byte(d@);
        }
        Ok(hex_encode(d.as_slice()))
    } else if str_eq(a, "sha1") {
        let d = sha1_bytes(data);
        proof {
            hex_is_lowercase_two_per_byte(d@);
        }
        Ok(hex_encode(d.as_slice()))
    } else if str_eq(a, "sha256") {
        let d = sha256_bytes(data);
        proof {
            hex_is_lowercase_two_per_byte(d@);
        }
        Ok(hex_encode(d.as_slice()))
    } else if str_eq(a, "sha512") {
        let d = sha512_bytes(data);
        proof {
            hex_is_lowercase_two_per_byte(d@);
        }
        Ok(hex_encode(d.as_slice()))
    } else if str_eq(a, "blake3") {
        let d = blake3_bytes(data);
        proof {
            hex_is_lowercase_two_per_byte(d@);
        }
        Ok(hex_encode(d.as_slice()))
    } else {
        Err(String::from_str("不支持的算法"))
    }
}

/// The BLAKE3 hash of some contents in lowercase hex, by which duplicate
/// files are told apart.
pub fn content_hash(data: &[u8]) -> (r: String)
    ensures
        r@ == hex_spec(blake3_digest(data@)),
{
    let d = blake3_bytes(data);
    hex_encode(d.as_slice())
}

/// `c` with an ASCII capital letter made small.
pub open spec fn ascii_lower(c: char) -> char {
    if 'A' <= c <= 'Z' {
        ((c as u32) + 32) as char
    } else {
        c
    }
}

/// Equality of two texts when ASCII letters are compared without case
/// (`str::eq_ignore_ascii_case`).
pub open spec fn eq_ignore_ascii_case_spec(a: Seq<char>, b: Seq<char>) -> bool {
    a.len() == b.len() && forall|i: int| 0 <= i < a.len() ==> ascii_lower(#[trigger] a[i]) == ascii_lower(b[i])
}

fn lower_ascii_char(c: char) -> (r: char)
    ensures
        r == ascii_lower(c),
{
    if 'A' <= c && c <= 'Z' {
        let u = c as u32 + 32;
        proof {
            assert(0x61 <= u <= 0x7a);
        }
        char_of_ascii(u)
    } else {
        c
    }
}

/// The character of an ASCII code.
fn char_of_ascii(u: u32) -> (c: char)
    requires
        u < 128,
    ensures
        c == u as char,
{
    let b = u as u8;
    let c = b as char;
    proof {
        assert(c as u32 == u);
    }
    c
}

/// Whether `a` and `b` are equal when ASCII case is ignored.
pub fn eq_ignore_ascii_case(a: &str, b: &str) -> (r: bool)
    ensures
        r == eq_ignore_ascii_case_spec(a@, b@),
{
    let x = chars_of(a);
    let y = chars_of(b);
    if x.len() != y.len() {
        return false;
    }
    let mut i: usize = 0;
    while i < x.len()
        invariant
            i <= x.len(),
            x.len() == y.len(),
            x@ == a@,
            y@ == b@,
            forall|k: int| 0 <= k < i ==> ascii_lower(#[trigger] x@[k]) == ascii_lower(y@[k]),
        decreases x.len() - i,
    {
        if lower_ascii_char(x[i]) != lower_ascii_char(y[i]) {
            return false;
        }
        i = i + 1;
    }
    true
}

/// Whether the contents `data` have the expected checksum under `algorithm`;
/// an unknown algorithm is an error.
pub fn verify_checksum(data: &[u8], expected: &str, algorithm: &str) -> (r: Result<bool, String>)
    ensures
        match checksum_spec(data@, algorithm@) {
            Ok(h) => r == Ok::<bool, String>(eq_ignore_ascii_case_spec(h, expected@)),
            Err(e) => r matches Err(m) && m@ == e,
        },
{
    match compute_checksum(data, algorithm) {
        Ok(h) => Ok(eq_ignore_ascii_case(h.as_str(), expected)),
        Err(e) => Err(e),
    }
}

/// The result of checking one listed file, given what reading it gave.
pub open spec fn item_outcome(item: FileVerifyItem, read: Result<Seq<u8>, Seq<char>>) -> Result<bool, Seq<char>> {
    match read {
        Err(e) => Err(e),
        Ok(data) => match checksum_spec(data, item.algorithm@) {
            Ok(h) => Ok(eq_ignore_ascii_case_spec(h, item.expected@)),
            Err(e) => Err(e),
        },
    }
}

/// The answer to a batch check: every file's path and verdict, in order, or
/// the first error.
pub open spec fn batch_spec(items: Seq<FileVerifyItem>, reads: Seq<Result<Seq<u8>, Seq<char>>>) -> Result<Seq<(Seq<char>, bool)>, Seq<char>>
    decreases items.len(),
{
    if items.len() == 0 {
        Ok(Seq::empty())
    } else {
        match batch_spec(items.drop_last(), reads.take(items.len() - 1)) {
            Err(e) => Err(e),
            Ok(done) => match item_outcome(items.last(), reads[items.len() - 1]) {
                Err(e) => Err(e),
                Ok(b) => Ok(done.push((items.last().path@, b))),
            },
        }
    }
}

/// The view of what reading a file gave.
pub open spec fn read_view(r: Result<Vec<u8>, String>) -> Result<Seq<u8>, Seq<char>> {
    match r {
        Ok(d) => Ok(d@),
        Err(e) => Err(e@),
    }
}

/// Checks each listed file, in order, given what reading each one gave; the
/// first error ends the batch.
pub fn batch_verify(items: &Vec<FileVerifyItem>, reads: &Vec<Result<Vec<u8>, String>>) -> (r: Result<Vec<(String, bool)>, String>)
    requires
        reads.len() == items.len(),
    ensures
        batch_spec(items@, reads@.map_values(|x: Result<Vec<u8>, String>| read_view(x))) == match r {
            Ok(v) => Ok::<Seq<(Seq<char>, bool)>, Seq<char>>(v@.map_values(|p: (String, bool)| (p.0@, p.1))),
            Err(e) => Err::<Seq<(Seq<char>, bool)>, Seq<char>>(e@),
        },
{
    let ghost rv = reads@.map_values(|x: Result<Vec<u8>, String>| read_view(x));
    let mut out: Vec<(String, bool)> = Vec::new();
    let mut i: usize = 0;
    assert(items@.take(0) =~= Seq::<FileVerifyItem>::empty());
    assert(out@.map_values(|p: (String, bool)| (p.0@, p.1)) =~= Seq::<(Seq<char>, bool)>::empty());
    while i < items.len()
        invariant
            i <= items.len(),
            reads.len() == items.len(),
            rv == reads@.map_values(|x: Result<Vec<u8>, String>| read_view(x)),
            batch_spec(items@.take(i as int), rv.take(i as int)) == Ok::<Seq<(Seq<char>, bool)>, Seq<char>>(
                out@.map_values(|p: (String, bool)| (p.0@, p.1)),
            ),
        decreases items.len() - i,
    {
        let item = &items[i];
        assert(items@.take(i + 1).drop_last() =~= items@.take(i as int));
        assert(rv.take(i + 1).take(i as int) =~= rv.take(i as int));
        assert(rv[i as int] == read_view(reads@[i as int]));
        let verdict = match &reads[i] {
            Err(e) => {
                proof {
                    assert(batch_spec(items@.take(i + 1), rv.take(i + 1)) == Err::<Seq<(Seq<char>, bool)>, Seq<char>>(e@));
                    lemma_batch_err_stays(items@, rv, i as int + 1, e@);
                    assert(items@.take(items.len() as int) =~= items@);
                    assert(rv.take(items.len() as int) =~= rv);
                }
                return Err(e.clone());
            },
            Ok(data) => verify_checksum(data.as_slice(), items[i].expected.as_str(), items[i].algorithm.as_str()),
        };
        match verdict {
            Err(e) => {
                proof {
                    assert(batch_spec(items@.take(i + 1), rv.take(i + 1)) == Err::<Seq<(Seq<char>, bool)>, Seq<char>>(e@));
                    lemma_batch_err_stays(items@, rv, i as int + 1, e@);
                    assert(items@.take(items.len() as int) =~= items@);
                    assert(rv.take(items.len() as int) =~= rv);
                }
                return Err(e);
            },
            Ok(b) => {
                let ghost before = out@.map_values(|p: (String, bool)| (p.0@, p.1));
                out.push((item.path.clone(), b));
                assert(out@.map_values(|p: (String, bool)| (p.0@, p.1)) =~= before.push((item.path@, b)));
            },
        }
        i = i + 1;
    }
    assert(items@.take(items.len() as int) =~= items@);
    assert(rv.take(items.len() as int) =~= rv);
    Ok(out)
}

/// Once a batch has failed, checking more files gives the same error.
proof fn lemma_batch_err_stays(items: Seq<FileVerifyItem>, reads: Seq<Result<Seq<u8>, Seq<char>>>, k: int, e: Seq<char>)
    requires
        0 <= k <= items.len(),
        reads.len() == items.len(),
        batch_spec(items.take(k), reads.take(k)) == Err::<Seq<(Seq<char>, bool)>, Seq<char>>(e),
    ensures
        batch_spec(items.take(items.len() as int), reads.take(items.len() as int)) == Err::<Seq<(Seq<char>, bool)>, Seq<char>>(e),
    decreases items.len() - k,
{
    if k < items.len() {
        assert(items.take(k + 1).drop_last() =~= items.take(k));
        assert(reads.take(k + 1).take(k) =~= reads.take(k));
        lemma_batch_err_stays(items, reads, k + 1, e);
    }
}


/// A file verifies against the checksum computed from it, and comparing
/// checksums does not depend on which one is expected.
pub proof fn own_checksum_verifies(data: Seq<u8>, algorithm: Seq<char>, other: Seq<char>)
    ensures
        checksum_spec(data, algorithm) matches Ok(h) ==> eq_ignore_ascii_case_spec(h, h),
        checksum_spec(data, algorithm) matches Ok(h) ==> (eq_ignore_ascii_case_spec(h, other) == eq_ignore_ascii_case_spec(other, h)),
{
}

/// A checksum is the lowercase hex of the digest the algorithm names, its name
/// compared without case: "md5" is MD5, "sha1" SHA-1, "sha256" SHA-256,
/// "sha512" SHA-512 and "blake3" BLAKE3; any other name is refused.
pub proof fn checksum_uses_the_named_algorithm(data: Seq<u8>, algorithm: Seq<char>)
    ensures
        ({
            let a = std_lowercase(algorithm);
            &&& a == "md5"@ ==> checksum_spec(data, algorithm) == Ok::<Seq<char>, Seq<char>>(hex_spec(md5_digest(data)))
            &&& a == "sha1"@ ==> checksum_spec(data, algorithm) == Ok::<Seq<char>, Seq<char>>(hex_spec(sha1_digest(data)))
            &&& a == "sha256"@ ==> checksum_spec(data, algorithm) == Ok::<Seq<char>, Seq<char>>(hex_spec(sha256_digest(data)))
            &&& a == "sha512"@ ==> checksum_spec(data, algorithm) == Ok::<Seq<char>, Seq<char>>(hex_spec(sha512_digest(data)))
            &&& a == "blake3"@ ==> checksum_spec(data, algorithm) == Ok::<Seq<char>, Seq<char>>(hex_spec(blake3_digest(data)))
            &&& (a != "md5"@ && a != "sha1"@ && a != "sha256"@ && a != "sha512"@ && a != "blake3"@)
                ==> checksum_spec(data, algorithm) == Err::<Seq<char>, Seq<char>>("不支持的算法"@)
        }),
{
    reveal_strlit("md5");
    reveal_strlit("sha1");
    reveal_strlit("sha256");
    reveal_strlit("sha512");
    reveal_strlit("blake3");
    assert("sha1"@[0] != "md5"@[0]);
    assert("sha256"@[0] != "md5"@[0] && "sha256"@.len() != "sha1"@.len());
    assert("sha512"@[0] != "md5"@[0] && "sha512"@.len() != "sha1"@.len() && "sha512"@[3] != "sha256"@[3]);
    assert("blake3"@[0] != "md5"@[0] && "blake3"@[0] != "sha1"@[0] && "blake3"@[0] != "sha256"@[0] && "blake3"@[0] != "sha512"@[0]);
}

} // verus!
