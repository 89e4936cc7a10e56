//! Text helpers: strings seen as sequences of characters.

use vstd::prelude::*;
use vstd::string::*;
use vstd::utf8::*;

verus! {

/// `String::push` appends the given character to the end of the string.
pub assume_specification[ String::push ](s: &mut String, c: char)
    ensures
        final(s)@ == old(s)@.push(c),
;

/// The characters of `s`, in order.
pub fn chars_of(s: &str) -> (out: Vec<char>)
    ensures
        out@ == s@,
{
    let mut out: Vec<char> = Vec::new();
    for c in it: s.chars()
        invariant
            it.seq() == s@,
            out@ == it.seq().take(it.index() as int),
    {
        out.push(c);
        assert(it.seq().take(it.index() as int + 1) =~= it.seq().take(it.index() as int).push(c));
    }
    assert(out@ =~= s@);
    out
}

/// The string made of `chars`.
pub fn text_of(chars: &[char]) -> (out: String)
    ensures
        out@ == chars@,
{
    let mut out = String::new();
    let mut i: usize = 0;
    while i < chars.len()
        invariant
            i <= chars@.len(),
            out@ == chars@.take(i as int),
        decreases chars@.len() - i,
    {
        out.push(chars[i]);
        i += 1;
        assert(chars@.take(i as int) =~= chars@.take(i - 1).push(chars@[i - 1]));
    }
    assert(chars@.take(chars@.len() as int) =~= chars@);
    out
}

/// `a` followed by `b`.
pub fn concat2(a: &str, b: &str) -> (out: String)
    ensures
        out@ == a@ + b@,
{
    let mut out = a.to_string();
    out.append(b);
    out
}

/// `a`, `b` and `c`, one behind the other.
pub fn concat3(a: &str, b: &str, c: &str) -> (out: String)
    ensures
        out@ == a@ + b@ + c@,
{
    let mut out = a.to_string();
    out.append(b);
    out.append(c);
    out
}

/// Whether two byte slices hold the same bytes.
pub fn same_bytes(a: &[u8], b: &[u8]) -> (r: bool)
    ensures
        r == (a@ == b@),
{
    if a.len() != b.len() {
        return false;
    }
    let mut i: usize = 0;
    while i < a.len()
        invariant
            a@.len() == b@.len(),
            i <= a@.len(),
            a@.take(i as int) == b@.take(i as int),
        decreases a@.len() - i,
    {
        if a[i] != b[i] {
            return false;
        }
        i += 1;
        assert(a@.take(i as int) =~= a@.take(i - 1).push(a@[i - 1]));
        assert(b@.take(i as int) =~= b@.take(i - 1).push(b@[i - 1]));
    }
    assert(a@.take(i as int) =~= a@);
    assert(b@.take(i as int) =~= b@);
    true
}

/// Whether `bytes` begins with `prefix`.
pub fn bytes_start_with(bytes: &[u8], prefix: &[u8]) -> (r: bool)
    ensures
        r == prefix@.is_prefix_of(bytes@),
{
    if bytes.len() < prefix.len() {
        return false;
    }
    let mut i: usize = 0;
    while i < prefix.len()
        invariant
            prefix@.len() <= bytes@.len(),
            i <= prefix@.len(),
            forall|j: int| 0 <= j < i ==> prefix@[j] == bytes@[j],
        decreases prefix@.len() - i,
    {
        if prefix[i] != bytes[i] {
            assert(prefix@[i as int] != bytes@.subrange(0, prefix@.len() as int)[i as int]);
            return false;
        }
        i += 1;
    }
    assert(prefix@ =~= bytes@.subrange(0, prefix@.len() as int));
    true
}

/// Whether two strings hold the same characters.
pub fn same_text(a: &str, b: &str) -> (r: bool)
    ensures
        r == (a@ == b@),
{
    let r = same_bytes(a.as_bytes(), b.as_bytes());
    proof {
        encode_utf8_decode_utf8(a@);
        encode_utf8_decode_utf8(b@);
    }
    r
}

/// Whether `a` and `b` agree on their first `k` bytes, and at `k` either `a` has ended and `b` has
/// not, or `a` holds the smaller byte.
pub open spec fn parts_at(a: Seq<u8>, b: Seq<u8>, k: int) -> bool {
    &&& 0 <= k <= a.len()
    &&& k < b.len()
    &&& forall|j: int| 0 <= j < k ==> a[j] == b[j]
    &&& k == a.len() || a[k] < b[k]
}

/// Lexicographic order on byte strings (strict).
pub open spec fn bytes_before(a: Seq<u8>, b: Seq<u8>) -> bool {
    exists|k: int| #[trigger] parts_at(a, b, k)
}

/// Order on text: by the bytes of the UTF-8 encoding (strict).
pub open spec fn text_before(a: Seq<char>, b: Seq<char>) -> bool {
    bytes_before(encode_utf8(a), encode_utf8(b))
}

/// No text stands before itself.
pub proof fn text_before_irreflexive(a: Seq<char>)
    ensures
        !text_before(a, a),
{
}

/// The order on text is transitive.
pub proof fn text_before_transitive(a: Seq<char>, b: Seq<char>, c: Seq<char>)
    requires
        text_before(a, b),
        text_before(b, c),
    ensures
        text_before(a, c),
{
    let (x, y, z) = (encode_utf8(a), encode_utf8(b), encode_utf8(c));
    let k = choose|k: int| #[trigger] parts_at(x, y, k);
    let l = choose|l: int| #[trigger] parts_at(y, z, l);
    let m = if k <= l {
        k
    } else {
        l
    };
    assert(parts_at(x, z, m));
}

/// Two different byte strings are ordered one way or the other.
proof fn bytes_before_total(a: Seq<u8>, b: Seq<u8>, k: int)
    requires
        0 <= k <= a.len(),
        k <= b.len(),
        forall|j: int| 0 <= j < k ==> a[j] == b[j],
    ensures
        a == b || bytes_before(a, b) || bytes_before(b, a),
    decreases a.len() - k,
{
    if k == a.len() && k == b.len() {
        assert(a =~= b);
    } else if k == a.len() {
        assert(parts_at(a, b, k));
    } else if k == b.len() {
        assert(parts_at(b, a, k));
    } else if a[k] < b[k] {
        assert(parts_at(a, b, k));
    } else if a[k] > b[k] {
        assert(parts_at(b, a, k));
    } else {
        bytes_before_total(a, b, k + 1);
    }
}

/// Two different texts are ordered one way or the other.
pub proof fn text_before_total(a: Seq<char>, b: Seq<char>)
    ensures
        a == b || text_before(a, b) || text_before(b, a),
{
    bytes_before_total(encode_utf8(a), encode_utf8(b), 0);
    encode_utf8_decode_utf8(a);
    encode_utf8_decode_utf8(b);
}

/// Whether `a` stands before `b` in the order on text.
pub fn text_is_before(a: &str, b: &str) -> (r: bool)
    ensures
        r == text_before(a@, b@),
{
    let x = a.as_bytes();
    let y = b.as_bytes();
    let mut k: usize = 0;
    while k < x.len() && k < y.len() && x[k] == y[k]
        invariant
            k <= x@.len(),
            k <= y@.len(),
            forall|j: int| 0 <= j < k ==> x@[j] == y@[j],
        decreases x@.len() - k,
    {
        k += 1;
    }
    if k < y.len() && (k == x.len() || x[k] < y[k]) {
        assert(parts_at(x@, y@, k as int));
        true
    } else {
        assert(forall|l: int| !parts_at(x@, y@, l)) by {
            assert forall|l: int| parts_at(x@, y@, l) implies false by {
                if l < k {
                    assert(x@[l] == y@[l]);
                } else if l > k {
                    assert(x@[k as int] == y@[k as int]);
                }
            }
        }
        false
    }
}

/// The position of the first `c` in `chars`, or its length where there is none.
pub open spec fn find_char(chars: Seq<char>, c: char) -> int
    decreases chars.len(),
{
    if chars.len() == 0 || chars[0] == c {
        0
    } else {
        1 + find_char(chars.drop_first(), c)
    }
}

/// `find_char` gives the least position of the character.
pub proof fn find_char_least(chars: Seq<char>, c: char)
    ensures
        0 <= find_char(chars, c) <= chars.len(),
        forall|j: int| 0 <= j < find_char(chars, c) ==> chars[j] != c,
        find_char(chars, c) < chars.len() ==> chars[find_char(chars, c)] == c,
        find_char(chars, c) < chars.len() <==> chars.contains(c),
    decreases chars.len(),
{
    if chars.len() > 0 && chars[0] != c {
        let rest = chars.drop_first();
        find_char_least(rest, c);
        assert forall|j: int| 0 <= j < find_char(chars, c) implies chars[j] != c by {
            if j > 0 {
                assert(rest[j - 1] == chars[j]);
            }
        }
        if chars.contains(c) {
            let j = choose|j: int| 0 <= j < chars.len() && chars[j] == c;
            assert(rest[j - 1] == c);
        }
        if rest.contains(c) {
            let j = choose|j: int| 0 <= j < rest.len() && rest[j] == c;
            assert(chars[j + 1] == c);
        }
    }
}

/// The position of the first `c` in `chars` from `from` on, or the length where there is none.
pub fn position_of(chars: &[char], c: char) -> (r: usize)
    ensures
        r == find_char(chars@, c),
        r <= chars@.len(),
{
    let mut i: usize = 0;
    proof {
        find_char_least(chars@, c);
    }
    while i < chars.len() && chars[i] != c
        invariant
            i <= find_char(chars@, c) <= chars@.len(),
            find_char(chars@, c) < chars@.len() ==> chars@[find_char(chars@, c)] == c,
            forall|j: int| 0 <= j < find_char(chars@, c) ==> chars@[j] != c,
        decreases chars@.len() - i,
    {
        i += 1;
    }
    i
}

/// The ASCII upper-case letters in lower case, every other character as it is.
pub open spec fn ascii_lower_char(c: char) -> char {
    if 'A' <= c && c <= 'Z' {
        (c as u8 + 32) as char
    } else {
        c
    }
}

/// `s` with its ASCII letters in lower case.
pub open spec fn ascii_lower(s: Seq<char>) -> Seq<char> {
    s.map_values(|c: char| ascii_lower_char(c))
}

/// `s` with its ASCII letters in lower case.
pub fn to_ascii_lower(s: &str) -> (out: String)
    ensures
        out@ == ascii_lower(s@),
{
    let chars = chars_of(s);
    let mut out = String::new();
    let mut i: usize = 0;
    while i < chars.len()
        invariant
            i <= chars@.len(),
            out@ == ascii_lower(chars@.take(i as int)),
        decreases chars@.len() - i,
    {
        let c = chars[i];
        if 'A' <= c && c <= 'Z' {
            out.push((c as u8 + 32) as char);
        } else {
            out.push(c);
        }
        i += 1;
        assert(ascii_lower(chars@.take(i as int)) =~= ascii_lower(chars@.take(i - 1)).push(
            ascii_lower_char(chars@[i - 1]),
        ));
    }
    assert(chars@.take(i as int) =~= s@);
    out
}

/// How `std::str::Utf8Error` describes what is wrong with the bytes.
pub uninterp spec fn utf8_fault(bytes: Seq<u8>) -> Seq<char>;

/// The text of `bytes`, or what is wrong with them where they are not valid UTF-8.
///
/// Trusted: `std::str::from_utf8` succeeds exactly on valid UTF-8 and then yields the characters
/// that the bytes encode. The text of its error is named.
#[verifier::external_body]
pub(crate) fn utf8_text(bytes: &[u8]) -> (r: std::result::Result<String, String>)
    ensures
        match r {
            Ok(s) => valid_utf8(bytes@) && s@ == decode_utf8(bytes@),
            Err(m) => !valid_utf8(bytes@) && m@ == utf8_fault(bytes@),
        },
{
    match std::str::from_utf8(bytes) {
        Ok(s) => Ok(s.to_owned()),
        Err(e) => Err(e.to_string()),
    }
}

/// What `String::from_utf8_lossy` makes of the bytes.
pub uninterp spec fn lossy_utf8(bytes: Seq<u8>) -> Seq<char>;

/// The text of `bytes` with every invalid sequence replaced.
///
/// Trusted: names the result of `String::from_utf8_lossy`, and says that valid UTF-8 comes out as
/// the characters that it encodes.
#[verifier::external_body]
pub(crate) fn utf8_lossy_text(bytes: &[u8]) -> (r: String)
    ensures
        r@ == lossy_utf8(bytes@),
        valid_utf8(bytes@) ==> r@ == decode_utf8(bytes@),
{
    String::from_utf8_lossy(bytes).into_owned()
}

/// The quoted form that `{:?}` gives a string.
pub uninterp spec fn quoted(s: Seq<char>) -> Seq<char>;

/// The string in quotes, with its special characters escaped.
///
/// Trusted: names what the `Debug` implementation of `str` writes.
#[verifier::external_body]
pub(crate) fn quoted_text(s: &str) -> (r: String)
    ensures
        r@ == quoted(s@),
{
    format!("{s:?}")
}

/// The decimal digits of `n`, most significant first.
pub open spec fn decimal(n: nat) -> Seq<char>
    decreases n,
{
    let digit = (48 + n % 10) as u8 as char;
    if n < 10 {
        seq![digit]
    } else {
        decimal(n / 10).push(digit)
    }
}

/// `n` in decimal digits.
pub fn decimal_text(n: u64) -> (r: String)
    ensures
        r@ == decimal(n as nat),
    decreases n,
{
    let digit = (48u8 + (n % 10) as u8) as char;
    let mut out = if n < 10 {
        String::new()
    } else {
        decimal_text(n / 10)
    };
    out.push(digit);
    assert(n < 10 ==> out@ =~= seq![digit]);
    out
}

/// The hexadecimal digit with a value.
pub open spec fn hex_digit(n: nat) -> char {
    if n < 10 {
        (48 + n) as u8 as char
    } else {
        (87 + n) as u8 as char
    }
}

/// The lowest `width` hexadecimal digits of `n`, most significant first.
pub open spec fn hex(n: nat, width: nat) -> Seq<char>
    decreases width,
{
    if width == 0 {
        Seq::empty()
    } else {
        hex(n / 16, (width - 1) as nat).push(hex_digit(n % 16))
    }
}

/// The lowest `width` hexadecimal digits of `n`.
pub fn hex_text(n: u32, width: u32) -> (r: String)
    ensures
        r@ == hex(n as nat, width as nat),
    decreases width,
{
    if width == 0 {
        return String::new();
    }
    let mut out = hex_text(n / 16, width - 1);
    let low: u8 = (n % 16) as u8;
    if low < 10 {
        out.push((48u8 + low) as char);
    } else {
        out.push((87u8 + low) as char);
    }
    out
}

/// Bytes as a list of decimal numbers, without the brackets.
pub open spec fn byte_list(bytes: Seq<u8>) -> Seq<char>
    decreases bytes.len(),
{
    if bytes.len() == 0 {
        Seq::empty()
    } else if bytes.len() == 1 {
        decimal(bytes[0] as nat)
    } else {
        byte_list(bytes.drop_last()) + ", "@ + decimal(bytes.last() as nat)
    }
}

/// Bytes as a list of decimal numbers, in square brackets.
pub fn byte_list_text(bytes: &[u8]) -> (r: String)
    ensures
        r@ == "["@ + byte_list(bytes@) + "]"@,
{
    let mut out = "[".to_string();
    let mut i: usize = 0;
    assert(out@ =~= "["@ + byte_list(bytes@.take(0)));
    while i < bytes.len()
        invariant
            i <= bytes@.len(),
            out@ == "["@ + byte_list(bytes@.take(i as int)),
        decreases bytes@.len() - i,
    {
        let ghost before = out@;
        if i > 0 {
            out.append(", ");
        }
        out.append(decimal_text(bytes[i] as u64).as_str());
        proof {
            assert(bytes@.take(i + 1).drop_last() =~= bytes@.take(i as int));
            assert(bytes@.take(i + 1).last() == bytes@[i as int]);
            if i == 0 {
                assert(bytes@.take(1)[0] == bytes@[0]);
                assert(out@ =~= "["@ + decimal(bytes@[0] as nat));
            } else {
                assert(out@ =~= "["@ + byte_list(bytes@.take(i + 1)));
            }
        }
        i += 1;
    }
    assert(bytes@.take(i as int) =~= bytes@);
    out.append("]");
    out
}

/// What follows the last `c` in a text; the whole text where there is none.
pub open spec fn after_last(s: Seq<char>, c: char) -> Seq<char>
    decreases s.len(),
{
    if s.len() == 0 || s.last() == c {
        Seq::empty()
    } else {
        after_last(s.drop_last(), c).push(s.last())
    }
}

/// What follows the last `c` in a text; the whole text where there is none.
pub fn tail_after(s: &str, c: char) -> (r: String)
    ensures
        r@ == after_last(s@, c),
{
    let chars = chars_of(s);
    let mut out: Vec<char> = Vec::new();
    let mut i: usize = 0;
    while i < chars.len()
        invariant
            i <= chars@.len(),
            out@ == after_last(chars@.take(i as int), c),
        decreases chars@.len() - i,
    {
        assert(chars@.take(i + 1).drop_last() =~= chars@.take(i as int));
        if chars[i] == c {
            out = Vec::new();
            assert(out@ =~= Seq::<char>::empty());
        } else {
            out.push(chars[i]);
        }
        i += 1;
    }
    assert(chars@.take(i as int) =~= s@);
    text_of(out.as_slice())
}

} // verus!
