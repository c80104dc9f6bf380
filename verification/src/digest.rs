//! The digest of a file's content, and how it is written.

use crate::record::File;
use vstd::prelude::*;
use vstd::string::*;

verus! {

/// The character for one hexadecimal digit, in lower case.
pub open spec fn hex_digit(n: nat) -> char
    recommends
        n < 16,
{
    if n == 0 {
        '0'
    } else if n == 1 {
        '1'
    } else if n == 2 {
        '2'
    } else if n == 3 {
        '3'
    } else if n == 4 {
        '4'
    } else if n == 5 {
        '5'
    } else if n == 6 {
        '6'
    } else if n == 7 {
        '7'
    } else if n == 8 {
        '8'
    } else if n == 9 {
        '9'
    } else if n == 10 {
        'a'
    } else if n == 11 {
        'b'
    } else if n == 12 {
        'c'
    } else if n == 13 {
        'd'
    } else if n == 14 {
        'e'
    } else {
        'f'
    }
}

/// Whether `c` is a hexadecimal digit in lower case.
pub open spec fn is_hex_char(c: char) -> bool {
    ('0' <= c && c <= '9') || ('a' <= c && c <= 'f')
}

/// Whether `hash` has the form of a digest as it is recorded: thirty-two
/// hexadecimal digits in lower case.
pub open spec fn is_hex_digest(hash: Seq<char>) -> bool {
    &&& hash.len() == 32
    &&& forall|i: int| 0 <= i < hash.len() ==> is_hex_char(#[trigger] hash[i])
}

/// Bytes written in hexadecimal: two digits for each byte, the high half
/// first, in lower case.
pub open spec fn hex_string(bytes: Seq<u8>) -> Seq<char> {
    Seq::new(
        2 * bytes.len(),
        |i: int|
            if i % 2 == 0 {
                hex_digit((bytes[i / 2] / 16) as nat)
            } else {
                hex_digit((bytes[i / 2] % 16) as nat)
            },
    )
}

/// The MD5 digest of `data`: sixteen bytes.
pub uninterp spec fn md5_digest(data: Seq<u8>) -> Seq<u8>;

/// The digest under which a file with this content is recorded: the MD5
/// digest of the content, written in hexadecimal.
pub open spec fn content_hash(content: Seq<u8>) -> Seq<char> {
    hex_string(md5_digest(content))
}

/// Computes the MD5 digest with `md5::compute` and hands out the sixteen
/// bytes of the `Digest` it returns. The contract only names them: the same
/// data always has the same digest.
#[verifier::external_body]
fn md5_compute(data: &[u8]) -> (digest: [u8; 16])
    ensures
        digest@ == md5_digest(data@),
{
    md5::compute(data).0
}

fn hex_digit_str(n: u8) -> (s: &'static str)
    requires
        n < 16,
    ensures
        s@ == seq![hex_digit(n as nat)],
{
    proof {
        reveal_strlit("0");
        reveal_strlit("1");
        reveal_strlit("2");
        reveal_strlit("3");
        reveal_strlit("4");
        reveal_strlit("5");
        reveal_strlit("6");
        reveal_strlit("7");
        reveal_strlit("8");
        reveal_strlit("9");
        reveal_strlit("a");
        reveal_strlit("b");
        reveal_strlit("c");
        reveal_strlit("d");
        reveal_strlit("e");
        reveal_strlit("f");
    }
    match n {
        0 => "0",
        1 => "1",
        2 => "2",
        3 => "3",
        4 => "4",
        5 => "5",
        6 => "6",
        7 => "7",
        8 => "8",
        9 => "9",
        10 => "a",
        11 => "b",
        12 => "c",
        13 => "d",
        14 => "e",
        _ => "f",
    }
}

/// Writes a digest in hexadecimal: thirty-two digits in lower case, two for
/// each byte.
pub fn bytes_to_string(bytes: &[u8; 16]) -> (string: String)
    ensures
        string@ == hex_string(bytes@),
        is_hex_digest(string@),
{
    let mut string = String::new();
    let mut i: usize = 0;
    while i < 16
        invariant
            i <= 16,
            bytes@.len() == 16,
            string@ == hex_string(bytes@.take(i as int)),
        decreases 16 - i,
    {
        let byte: u8 = bytes[i];
        let ghost written = string@;
        string.append(hex_digit_str(byte / 16));
        string.append(hex_digit_str(byte % 16));
        proof {
            assert(string@ =~= written.push(hex_digit((byte / 16) as nat)).push(
                hex_digit((byte % 16) as nat),
            ));
            assert(string@ =~= hex_string(bytes@.take(i + 1)));
        }
        i += 1;
    }
    proof {
        lemma_hex_string_form(bytes@);
    }
    string
}

/// The record of the file at `path` whose content is `content`.
pub fn get_hash_file<'a>(path: &'a str, content: &[u8]) -> (file: File<'a>)
    ensures
        file.path == path,
        file@.hash == content_hash(content@),
        is_hex_digest(file@.hash),
{
    let digest = md5_compute(content);
    File { path, hash: bytes_to_string(&digest) }
}

/// Bytes are written in hexadecimal digits only, two for each byte.
pub proof fn lemma_hex_string_form(bytes: Seq<u8>)
    ensures
        hex_string(bytes).len() == 2 * bytes.len(),
        forall|i: int| 0 <= i < 2 * bytes.len() ==> is_hex_char(#[trigger] hex_string(bytes)[i]),
{
}

/// Different digits are written with different characters.
proof fn lemma_hex_digit_injective(x: nat, y: nat)
    requires
        x < 16,
        y < 16,
        hex_digit(x) == hex_digit(y),
    ensures
        x == y,
{
}

/// Different bytes are written differently.
pub proof fn lemma_hex_string_injective(a: Seq<u8>, b: Seq<u8>)
    requires
        hex_string(a) == hex_string(b),
    ensures
        a == b,
{
    assert(hex_string(a).len() == 2 * a.len());
    assert(hex_string(b).len() == 2 * b.len());
    assert forall|i: int| 0 <= i < a.len() implies a[i] == b[i] by {
        assert(hex_string(a)[2 * i] == hex_digit((a[i] / 16) as nat));
        assert(hex_string(b)[2 * i] == hex_digit((b[i] / 16) as nat));
        assert(hex_string(a)[2 * i + 1] == hex_digit((a[i] % 16) as nat));
        assert(hex_string(b)[2 * i + 1] == hex_digit((b[i] % 16) as nat));
        lemma_hex_digit_injective((a[i] / 16) as nat, (b[i] / 16) as nat);
        lemma_hex_digit_injective((a[i] % 16) as nat, (b[i] % 16) as nat);
    }
}

} // verus!
