//! Names of media files: the SHA-256 of the bytes, so that the same image is
//! stored once, and the file's extension in lower case.
use vstd::prelude::*;
use crate::text::push_char;

verus! {

/// The SHA-256 digest of some bytes.
pub uninterp spec fn sha256_digest(data: Seq<u8>) -> Seq<u8>;

/// Calls `<sha2::Sha256 as sha2::Digest>::digest`: the SHA-256 digest of `data`, a
/// function of the bytes alone, 32 bytes long (the output size of `Sha256`).
#[verifier::external_body]
fn sha256(data: &[u8]) -> (r: Vec<u8>)
    ensures
        r@ == sha256_digest(data@),
        r@.len() == 32,
{
    <sha2::Sha256 as sha2::Digest>::digest(data).to_vec()
}

/// The lower-case hexadecimal digit for `d`.
pub open spec fn hex_char(d: int) -> char {
    if d < 10 {
        (('0' as int) + d) as char
    } else {
        (('a' as int) + d - 10) as char
    }
}

/// Bytes in lower-case hexadecimal, two digits a byte.
pub open spec fn hex_text(b: Seq<u8>) -> Seq<char>
    decreases b.len(),
{
    if b.len() == 0 {
        Seq::empty()
    } else {
        hex_text(b.drop_last()) + seq![hex_char((b.last() / 16) as int), hex_char((b.last() % 16) as int)]
    }
}

/// A character in ASCII lower case.
pub open spec fn ascii_lower(c: char) -> char {
    if 'A' <= c && c <= 'Z' {
        ((c as int) + 32) as char
    } else {
        c
    }
}

fn hex_digit(d: u8) -> (c: char)
    requires
        d < 16,
    ensures
        c == hex_char(d as int),
{
    if d < 10 {
        (0x30u8 + d) as char
    } else {
        (0x61u8 + d - 10) as char
    }
}

fn lower(c: char) -> (r: char)
    ensures
        r == ascii_lower(c),
{
    if 'A' <= c && c <= 'Z' {
        ((c as u8) + 32) as char
    } else {
        c
    }
}

/// The name under which the bytes of a media file are kept: the SHA-256 of the
/// bytes in hexadecimal, a dot, and the file's extension in lower case ("bin"
/// where the file has none).
pub open spec fn media_file_name_of(data: Seq<u8>, extension: Option<Seq<char>>) -> Seq<char> {
    hex_text(sha256_digest(data)) + seq!['.'] + (match extension {
        Some(e) => e,
        None => "bin"@,
    }).map_values(|c: char| ascii_lower(c))
}

/// Two hexadecimal digits a byte.
pub proof fn lemma_hex_text_len(b: Seq<u8>)
    ensures
        hex_text(b).len() == 2 * b.len(),
    decreases b.len(),
{
    if b.len() > 0 {
        lemma_hex_text_len(b.drop_last());
    }
}

pub fn media_file_name(data: &[u8], extension: Option<&str>) -> (r: String)
    ensures
        r@ == media_file_name_of(
            data@,
            match extension {
                Some(e) => Some(e@),
                None => None,
            },
        ),
        sha256_digest(data@).len() == 32,
        hex_text(sha256_digest(data@)).len() == 64,
{
    let digest = sha256(data);
    let mut r = String::new();
    let n = digest.len();
    let mut i: usize = 0;
    while i < n
        invariant
            n == digest@.len(),
            i <= n,
            r@ == hex_text(digest@.take(i as int)),
        decreases n - i,
    {
        let b = digest[i];
        push_char(&mut r, hex_digit(b / 16));
        push_char(&mut r, hex_digit(b % 16));
        assert(digest@.take(i + 1).drop_last() =~= digest@.take(i as int));
        assert(r@ =~= hex_text(digest@.take(i + 1)));
        i = i + 1;
    }
    assert(digest@.take(n as int) =~= digest@);
    proof {
        lemma_hex_text_len(digest@);
    }
    push_char(&mut r, '.');
    let ext = match extension {
        Some(e) => e,
        None => "bin",
    };
    let ghost start = r@;
    for c in it: ext.chars()
        invariant
            it.seq() == ext@,
            r@ == start + ext@.take(it.index() as int).map_values(|c: char| ascii_lower(c)),
    {
        let ghost k = it.index() as int;
        push_char(&mut r, lower(c));
        assert(ext@.take(k + 1) =~= ext@.take(k).push(c));
        assert(r@ =~= start + ext@.take(k + 1).map_values(|c: char| ascii_lower(c)));
    }
    assert(ext@.take(ext@.len() as int) =~= ext@);
    r
}

} // verus!
