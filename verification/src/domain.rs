//! Domain field validators: smart constructors for subscriber names and
//! email addresses.
//!
//! [`SubscriberName::try_from`] and [`SubscriberEmail::try_from`] are the
//! only ways to produce values of the two types, so every value satisfies
//! its rule ([`name_ok`], [`email_ok`]). Validation of a name counts
//! Unicode grapheme clusters against the length ceiling; validation of an
//! email address counts bytes. The substring denylist for names is a
//! shallow, heuristic guard against markup and SQL patterns, not
//! sanitization: injection safety downstream must come from parameterized
//! persistence calls.

use unicode_segmentation::UnicodeSegmentation;
use vstd::prelude::*;
use vstd::string::StrSliceExecFns;
use vstd::string::StringExecFns;
use vstd::utf8::encode_utf8;

verus! {

/// Number of extended grapheme clusters in a character sequence.
pub uninterp spec fn grapheme_count(s: Seq<char>) -> nat;

/// Relies on `unicode_segmentation::UnicodeSegmentation::graphemes` with
/// extended clusters: the number of clusters depends on the characters
/// alone.
#[verifier::external_body]
fn grapheme_len(s: &str) -> (n: usize)
    ensures
        n == grapheme_count(s@),
{
    s.graphemes(true).count()
}

/// True for the characters with the Unicode `White_Space` property, the
/// set that `str::trim` strips.
pub open spec fn is_space_char(c: char) -> bool {
    let u = c as u32;
    u == 0x20 || (0x09 <= u <= 0x0d) || u == 0x85 || u == 0xa0 || u == 0x1680 || (0x2000 <= u
        <= 0x200a) || u == 0x2028 || u == 0x2029 || u == 0x202f || u == 0x205f || u == 0x3000
}

/// True when `s` has at least one character that is not whitespace.
pub open spec fn has_visible_char(s: Seq<char>) -> bool {
    exists|i: int| 0 <= i < s.len() && !is_space_char(s[i])
}

/// True when `s` contains the character `c`.
pub open spec fn contains_char(s: Seq<char>, c: char) -> bool {
    exists|i: int| 0 <= i < s.len() && s[i] == c
}

/// True when `s` contains the two-character substring `ab`.
pub open spec fn contains_pair(s: Seq<char>, a: char, b: char) -> bool {
    exists|i: int| 0 <= i && i + 1 < s.len() && #[trigger] s[i] == a && s[i + 1] == b
}

/// Number of occurrences of `c` in `s` at or after position `i`.
pub open spec fn count_from(s: Seq<char>, c: char, i: int) -> nat
    decreases s.len() - i when 0 <= i
{
    if i >= s.len() {
        0
    } else {
        (if s[i] == c {
            1nat
        } else {
            0nat
        }) + count_from(s, c, i + 1)
    }
}

/// Number of occurrences of `c` in `s`.
pub open spec fn count_char(s: Seq<char>, c: char) -> nat {
    count_from(s, c, 0)
}

/// First position of `c` in `s` at or after `i`, or the length of `s`.
pub open spec fn find_from(s: Seq<char>, c: char, i: int) -> int
    decreases s.len() - i when 0 <= i
{
    if i >= s.len() {
        s.len() as int
    } else if s[i] == c {
        i
    } else {
        find_from(s, c, i + 1)
    }
}

/// The rule for a valid subscriber name: meaningfully non-empty (at least
/// one non-whitespace character), at most 255 grapheme clusters, and free
/// of the denylisted substrings `<`, `>`, `;`, `--` and `/*`.
pub open spec fn name_ok(s: Seq<char>) -> bool {
    has_visible_char(s) && grapheme_count(s) <= 255 && !contains_char(s, '<') && !contains_char(
        s,
        '>',
    ) && !contains_char(s, ';') && !contains_pair(s, '-', '-') && !contains_pair(s, '/', '*')
}

/// The reason reported for an invalid name, by the first rule that fails.
pub open spec fn name_error(s: Seq<char>) -> Seq<char>
    recommends
        !name_ok(s),
{
    if !has_visible_char(s) {
        "Name cannot be empty"@
    } else if grapheme_count(s) > 255 {
        "Name is too long (maximum 255 characters)"@
    } else if contains_char(s, '<') || contains_char(s, '>') {
        "Name contains markup: potential XSS attack"@
    } else {
        "Name contains forbidden characters"@
    }
}

/// The rule for a valid email address: non-empty, at most 255 bytes, and
/// exactly one `@` with non-empty text on both sides.
pub open spec fn email_ok(s: Seq<char>) -> bool {
    s.len() > 0 && encode_utf8(s).len() <= 255 && count_char(s, '@') == 1 && s[0] != '@' && s[s.len()
        - 1] != '@'
}

/// The reason reported for an invalid email address, by the first rule
/// that fails.
pub open spec fn email_error(s: Seq<char>) -> Seq<char>
    recommends
        !email_ok(s),
{
    if s.len() == 0 {
        "Email cannot be empty"@
    } else if encode_utf8(s).len() > 255 {
        "Email is too long (maximum 255 characters)"@
    } else if count_char(s, '@') == 0 {
        "Email must contain '@'"@
    } else {
        "Invalid email format"@
    }
}

/// The text after the first `@` of `s`.
pub open spec fn email_domain(s: Seq<char>) -> Seq<char>
    recommends
        contains_char(s, '@'),
{
    s.skip(find_from(s, '@', 0) + 1)
}

/// The characters of a string slice as a vector.
fn chars_of(s: &str) -> (v: Vec<char>)
    ensures
        v@ == s@,
{
    let n = s.unicode_len();
    let mut v: Vec<char> = Vec::new();
    let mut i: usize = 0;
    while i < n
        invariant
            n == s@.len(),
            i <= n,
            v@ =~= s@.take(i as int),
        decreases n - i,
    {
        v.push(s.get_char(i));
        i = i + 1;
        proof {
            assert(v@ =~= s@.take(i as int));
        }
    }
    proof {
        assert(s@.take(n as int) =~= s@);
    }
    v
}

/// Reports whether `c` is Unicode whitespace.
fn is_space(c: char) -> (r: bool)
    ensures
        r == is_space_char(c),
{
    let u = c as u32;
    u == 0x20 || (0x09 <= u && u <= 0x0d) || u == 0x85 || u == 0xa0 || u == 0x1680 || (0x2000 <= u
        && u <= 0x200a) || u == 0x2028 || u == 0x2029 || u == 0x202f || u == 0x205f || u == 0x3000
}

/// Reports whether some character of `chars` is not whitespace.
fn has_visible(chars: &Vec<char>) -> (r: bool)
    ensures
        r == has_visible_char(chars@),
{
    let n = chars.len();
    let mut i: usize = 0;
    while i < n
        invariant
            n == chars@.len(),
            i <= n,
            forall|k: int| 0 <= k < i ==> is_space_char(chars@[k]),
        decreases n - i,
    {
        if !is_space(chars[i]) {
            return true;
        }
        i = i + 1;
    }
    false
}

/// Reports whether `chars` contains the character `c`.
fn contains_char_exec(chars: &Vec<char>, c: char) -> (r: bool)
    ensures
        r == contains_char(chars@, c),
{
    let n = chars.len();
    let mut i: usize = 0;
    while i < n
        invariant
            n == chars@.len(),
            i <= n,
            forall|k: int| 0 <= k < i ==> chars@[k] != c,
        decreases n - i,
    {
        if chars[i] == c {
            return true;
        }
        i = i + 1;
    }
    false
}

/// Reports whether `chars` contains the two-character substring `ab`.
fn contains_pair_exec(chars: &Vec<char>, a: char, b: char) -> (r: bool)
    ensures
        r == contains_pair(chars@, a, b),
{
    let n = chars.len();
    if n < 2 {
        return false;
    }
    let mut i: usize = 0;
    while i < n - 1
        invariant
            n == chars@.len(),
            2 <= n,
            i <= n,
            forall|k: int| 0 <= k < i ==> !(#[trigger] chars@[k] == a && chars@[k + 1] == b),
        decreases n - i,
    {
        if chars[i] == a && chars[i + 1] == b {
            return true;
        }
        i = i + 1;
    }
    false
}

/// Number of occurrences of `c` in `chars`.
fn count_char_exec(chars: &Vec<char>, c: char) -> (r: usize)
    ensures
        r == count_char(chars@, c),
{
    let ghost s = chars@;
    let n = chars.len();
    let mut cnt: usize = 0;
    let mut i: usize = 0;
    while i < n
        invariant
            n == s.len(),
            s == chars@,
            i <= n,
            cnt <= i,
            cnt + count_from(s, c, i as int) == count_char(s, c),
        decreases n - i,
    {
        if chars[i] == c {
            cnt = cnt + 1;
        }
        i = i + 1;
    }
    cnt
}

/// The number of bytes in the UTF-8 encoding of `c`.
fn char_utf8_width(c: char) -> (w: usize)
    ensures
        w == vstd::utf8::encode_scalar(c as u32).len(),
        1 <= w <= 4,
{
    proof {
        vstd::utf8::char_is_scalar(c);
    }
    let u = c as u32;
    if u < 0x80 {
        1
    } else if u < 0x800 {
        2
    } else if u < 0x10000 {
        3
    } else {
        4
    }
}

/// A character sequence never has a UTF-8 encoding shorter than itself.
proof fn lemma_encode_len_lower(s: Seq<char>)
    ensures
        encode_utf8(s).len() >= s.len(),
    decreases s.len(),
{
    if s.len() > 0 {
        lemma_encode_len_lower(s.drop_first());
    }
}

/// The length in bytes of the UTF-8 encoding of `chars`.
fn utf8_len(chars: &Vec<char>) -> (total: usize)
    requires
        chars@.len() <= 255,
    ensures
        total == encode_utf8(chars@).len(),
{
    let ghost s = chars@;
    proof {
        assert(s.skip(0) =~= s);
    }
    let n = chars.len();
    let mut total: usize = 0;
    let mut i: usize = 0;
    while i < n
        invariant
            n == s.len(),
            s == chars@,
            n <= 255,
            i <= n,
            total <= 4 * i,
            total + encode_utf8(s.skip(i as int)).len() == encode_utf8(s).len(),
        decreases n - i,
    {
        let w = char_utf8_width(chars[i]);
        proof {
            assert(s.skip(i as int)[0] == s[i as int]);
            assert(s.skip(i as int).drop_first() =~= s.skip(i as int + 1));
        }
        total = total + w;
        i = i + 1;
    }
    proof {
        assert(s.skip(n as int) =~= Seq::<char>::empty());
    }
    total
}

/// If no position at or after `i` holds `c`, the count from `i` is zero.
proof fn lemma_count_zero(s: Seq<char>, c: char, i: int)
    requires
        0 <= i,
        forall|k: int| i <= k < s.len() ==> s[k] != c,
    ensures
        count_from(s, c, i) == 0,
    decreases s.len() - i,
{
    if i < s.len() {
        lemma_count_zero(s, c, i + 1);
    }
}

/// A validated subscriber display name.
///
/// Values exist only through [`SubscriberName::try_from`], so every value
/// satisfies [`name_ok`].
#[derive(Debug)]
pub struct SubscriberName {
    name: String,
}

impl View for SubscriberName {
    type V = Seq<char>;

    closed spec fn view(&self) -> Seq<char> {
        self.name@
    }
}

impl SubscriberName {
    #[verifier::type_invariant]
    spec fn type_inv(self) -> bool {
        name_ok(self.name@)
    }

    /// Validates `value` as a subscriber name. Returns the name on
    /// success; otherwise the reason given by [`name_error`].
    pub fn try_from(value: String) -> (r: Result<SubscriberName, String>)
        ensures
            r matches Ok(n) ==> name_ok(value@) && n@ == value@,
            r matches Err(m) ==> !name_ok(value@) && m@ == name_error(value@),
    {
        let chars = chars_of(value.as_str());
        if !has_visible(&chars) {
            return Err(String::from_str("Name cannot be empty"));
        }
        if grapheme_len(value.as_str()) > 255 {
            return Err(String::from_str("Name is too long (maximum 255 characters)"));
        }
        if contains_char_exec(&chars, '<') || contains_char_exec(&chars, '>') {
            return Err(String::from_str("Name contains markup: potential XSS attack"));
        }
        if contains_char_exec(&chars, ';') || contains_pair_exec(&chars, '-', '-')
            || contains_pair_exec(&chars, '/', '*') {
            return Err(String::from_str("Name contains forbidden characters"));
        }
        Ok(SubscriberName { name: value })
    }

    /// The validated text.
    pub fn as_str(&self) -> (r: &str)
        ensures
            r@ == self@,
    {
        self.name.as_str()
    }

    /// The length of the name in grapheme clusters.
    pub fn len(&self) -> (n: usize)
        ensures
            n == grapheme_count(self@),
    {
        grapheme_len(self.name.as_str())
    }

    /// Reports whether the name is all whitespace. A validated name never
    /// is, so this always returns `false`.
    pub fn is_empty(&self) -> (r: bool)
        ensures
            r == !has_visible_char(self@),
            r == false,
    {
        proof {
            use_type_invariant(self);
        }
        let chars = chars_of(self.name.as_str());
        !has_visible(&chars)
    }

    /// Law: a name the library holds always satisfies [`name_ok`], so
    /// validating its own text again succeeds and yields a value with
    /// the same text.
    pub fn revalidate(&self) -> (r: Result<SubscriberName, String>)
        ensures
            name_ok(self@),
            r matches Ok(n) && n@ == self@,
    {
        proof {
            use_type_invariant(self);
        }
        SubscriberName::try_from(String::from_str(self.as_str()))
    }
}

/// A validated subscriber email address.
///
/// Values exist only through [`SubscriberEmail::try_from`], so every
/// value satisfies [`email_ok`]. The rule is an intentionally minimal
/// syntactic check, not full RFC 5322 conformance.
#[derive(Debug)]
pub struct SubscriberEmail {
    email: String,
}

impl View for SubscriberEmail {
    type V = Seq<char>;

    closed spec fn view(&self) -> Seq<char> {
        self.email@
    }
}

impl SubscriberEmail {
    #[verifier::type_invariant]
    spec fn type_inv(self) -> bool {
        email_ok(self.email@)
    }

    /// Validates `value` as an email address. Returns the address on
    /// success; otherwise the reason given by [`email_error`].
    pub fn try_from(value: String) -> (r: Result<SubscriberEmail, String>)
        ensures
            r matches Ok(e) ==> email_ok(value@) && e@ == value@,
            r matches Err(m) ==> !email_ok(value@) && m@ == email_error(value@),
    {
        if value.as_str().is_empty() {
            return Err(String::from_str("Email cannot be empty"));
        }
        let chars = chars_of(value.as_str());
        if chars.len() > 255 {
            proof {
                lemma_encode_len_lower(value@);
            }
            return Err(String::from_str("Email is too long (maximum 255 characters)"));
        }
        if utf8_len(&chars) > 255 {
            return Err(String::from_str("Email is too long (maximum 255 characters)"));
        }
        let cnt = count_char_exec(&chars, '@');
        if cnt == 0 {
            return Err(String::from_str("Email must contain '@'"));
        }
        let n = chars.len();
        if cnt != 1 || chars[0] == '@' || chars[n - 1] == '@' {
            return Err(String::from_str("Invalid email format"));
        }
        Ok(SubscriberEmail { email: value })
    }

    /// The validated text.
    pub fn as_str(&self) -> (r: &str)
        ensures
            r@ == self@,
    {
        self.email.as_str()
    }

    /// The part of the address after the `@`.
    pub fn domain(&self) -> (r: Option<&str>)
        ensures
            r is Some,
            r matches Some(d) ==> d@ == email_domain(self@),
    {
        proof {
            use_type_invariant(self);
        }
        let ghost s = self.email@;
        let str_ref = self.email.as_str();
        let n = str_ref.unicode_len();
        let mut j: usize = 0;
        while j < n && str_ref.get_char(j) != '@'
            invariant
                n == s.len(),
                s == self.email@,
                str_ref@ == s,
                j <= n,
                forall|k: int| 0 <= k < j ==> s[k] != '@',
                find_from(s, '@', 0) == find_from(s, '@', j as int),
            decreases n - j,
        {
            j = j + 1;
        }
        if j == n {
            proof {
                lemma_count_zero(s, '@', 0);
                assert(false);
            }
            return None;
        }
        Some(str_ref.substring_char(j + 1, n))
    }

    /// Law: an email address the library holds always satisfies
    /// [`email_ok`], so validating its own text again succeeds and
    /// yields a value with the same text.
    pub fn revalidate(&self) -> (r: Result<SubscriberEmail, String>)
        ensures
            email_ok(self@),
            r matches Ok(e) && e@ == self@,
    {
        proof {
            use_type_invariant(self);
        }
        SubscriberEmail::try_from(String::from_str(self.as_str()))
    }
}

/// The final validated record, composed of one name and one email
/// address; the pipeline never mutates it after construction.
#[derive(Debug)]
pub struct Subscriber {
    pub name: SubscriberName,
    pub email: SubscriberEmail,
}

} // verus!
