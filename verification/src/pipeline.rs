//! The pipeline orchestrator.
//!
//! Five sequential stages, each a potential terminal failure point:
//! read body (done by the caller), percent-escape scan, structural parse,
//! UTF-8 conversion, and domain validation. No stage is retried; every failure
//! maps to exactly one [`StrictFormRejection`] kind, and each kind to one
//! HTTP status. On success the pipeline yields exactly one
//! [`Subscriber`] record.

use crate::domain::{contains_char, email_error, email_ok, name_error, name_ok};
use crate::domain::{Subscriber, SubscriberEmail, SubscriberName};
use crate::form::{
    form_pairs, lemma_next_byte_at, lemma_nul_reaches_pair, pair_has_nul, pairs_from,
    parse_raw_form, seg_pair,
};
use crate::percent::{
    lemma_pdecode_passthrough, lemma_pe_invalid_shift, lemma_pencode_alphabet,
    lemma_pencode_prepend, lemma_percent_round_trip, pe_invalid, pe_invalid_from, pencode,
    percent_encode_bytes, percent_encoding_is_invalid,
};
use crate::text::{
    all_pairs_text_ok, lemma_no_nul_char_no_nul_byte, pair_text_ok, texts_of, texts_view,
    to_text_pairs,
};
use vstd::prelude::*;
use vstd::string::StringExecFns;
use vstd::utf8::{
    encode_utf8, encode_utf8_decode_utf8, encode_utf8_valid_utf8, is_ascii_chars,
    is_ascii_chars_encode_utf8,
};

verus! {

/// Default cap on the request body, in bytes.
pub const MAX_BODY_BYTES: usize = 16 * 1024;

/// Default cap on the number of form pairs.
pub const MAX_FIELDS: usize = 256;

/// The configured limits of the pipeline, passed in at construction so
/// that callers can run with different limits without process-wide state.
pub struct FormLimits {
    pub max_body_bytes: usize,
    pub max_fields: usize,
}

impl FormLimits {
    /// The default limits: a 16 KiB body cap and at most 256 pairs.
    pub fn standard() -> (r: FormLimits)
        ensures
            r.max_body_bytes == MAX_BODY_BYTES,
            r.max_fields == MAX_FIELDS,
    {
        FormLimits { max_body_bytes: MAX_BODY_BYTES, max_fields: MAX_FIELDS }
    }
}

/// Wrapper for a value that passed the strict form pipeline.
#[derive(Debug)]
pub struct StrictForm<T>(pub T);

/// One rejection kind per failure class; each is terminal for its request
/// and surfaced verbatim to the caller.
#[derive(Debug, PartialEq, Eq)]
pub enum StrictFormRejection {
    /// Transport-level read failure, reported by the caller that reads
    /// the body; the pipeline itself never produces it.
    ReadBody,
    /// The body exceeds the configured size cap.
    PayloadTooLarge,
    /// A `%` escape somewhere in the body is malformed.
    InvalidPercentEncoding,
    /// A decoded key or value is not valid UTF-8 or contains a NUL byte.
    InvalidUtf8,
    /// More pairs than the configured cap.
    TooManyFields,
    /// A required field is missing.
    InvalidFormStructure(String),
    /// A field failed a domain rule; the payload names the rule.
    DomainValidation(String),
}

impl StrictFormRejection {
    /// The HTTP status that each rejection kind maps to.
    pub open spec fn spec_status(&self) -> u16 {
        match self {
            StrictFormRejection::ReadBody => 400,
            StrictFormRejection::PayloadTooLarge => 413,
            StrictFormRejection::InvalidPercentEncoding => 400,
            StrictFormRejection::InvalidUtf8 => 422,
            StrictFormRejection::TooManyFields => 400,
            StrictFormRejection::InvalidFormStructure(_) => 400,
            StrictFormRejection::DomainValidation(_) => 400,
        }
    }

    /// The HTTP status code for this rejection.
    pub fn status_code(&self) -> (c: u16)
        ensures
            c == self.spec_status(),
    {
        match self {
            StrictFormRejection::ReadBody => 400,
            StrictFormRejection::PayloadTooLarge => 413,
            StrictFormRejection::InvalidPercentEncoding => 400,
            StrictFormRejection::InvalidUtf8 => 422,
            StrictFormRejection::TooManyFields => 400,
            StrictFormRejection::InvalidFormStructure(_) => 400,
            StrictFormRejection::DomainValidation(_) => 400,
        }
    }

    /// The text of the short machine-debuggable description.
    pub open spec fn spec_description(&self) -> Seq<char> {
        match self {
            StrictFormRejection::ReadBody => "ReadBody"@,
            StrictFormRejection::PayloadTooLarge => "PayloadTooLarge"@,
            StrictFormRejection::InvalidPercentEncoding => "InvalidPercentEncoding"@,
            StrictFormRejection::InvalidUtf8 => "InvalidUtf8"@,
            StrictFormRejection::TooManyFields => "TooManyFields"@,
            StrictFormRejection::InvalidFormStructure(m) => m@,
            StrictFormRejection::DomainValidation(m) => m@,
        }
    }

    /// A short machine-debuggable description, surfaced verbatim in the
    /// response body.
    pub fn description(&self) -> (m: String)
        ensures
            m@ == self.spec_description(),
    {
        match self {
            StrictFormRejection::ReadBody => String::from_str("ReadBody"),
            StrictFormRejection::PayloadTooLarge => String::from_str("PayloadTooLarge"),
            StrictFormRejection::InvalidPercentEncoding => String::from_str(
                "InvalidPercentEncoding",
            ),
            StrictFormRejection::InvalidUtf8 => String::from_str("InvalidUtf8"),
            StrictFormRejection::TooManyFields => String::from_str("TooManyFields"),
            StrictFormRejection::InvalidFormStructure(m) => m.clone(),
            StrictFormRejection::DomainValidation(m) => m.clone(),
        }
    }
}

/// The text value of the last pair whose key is `key`, or `None` when no
/// pair has that key: the documented duplicate-key policy is that the
/// last value wins.
pub open spec fn lookup_text(pairs: Seq<(Seq<char>, Seq<char>)>, key: Seq<char>) -> Option<
    Seq<char>,
>
    decreases pairs.len(),
{
    if pairs.len() == 0 {
        None
    } else if pairs.last().0 == key {
        Some(pairs.last().1)
    } else {
        lookup_text(pairs.drop_last(), key)
    }
}

/// The value of the last pair whose key is `key`. Duplicate resolution is
/// applied here explicitly and once, not as a side effect of map
/// insertion order.
pub fn lookup_field(pairs: &Vec<(String, String)>, key: &String) -> (r: Option<String>)
    ensures
        r is Some <==> lookup_text(texts_view(pairs@), key@) is Some,
        r matches Some(v) ==> lookup_text(texts_view(pairs@), key@) == Some(v@),
{
    let ghost ts = texts_view(pairs@);
    let n = pairs.len();
    proof {
        assert(ts.take(n as int) =~= ts);
    }
    let mut i: usize = n;
    while i > 0
        invariant
            n == pairs@.len(),
            ts == texts_view(pairs@),
            i <= n,
            lookup_text(ts, key@) == lookup_text(ts.take(i as int), key@),
        decreases i,
    {
        let ghost i_prev = i as int;
        i = i - 1;
        let p = &pairs[i];
        if p.0.eq(key) {
            proof {
                assert(ts.take(i_prev).last() == ts[i as int]);
            }
            return Some(p.1.clone());
        }
        proof {
            assert(ts.take(i_prev).last() == ts[i as int]);
            assert(ts.take(i_prev).drop_last() =~= ts.take(i as int));
        }
    }
    proof {
        assert(ts.take(0) =~= Seq::<(Seq<char>, Seq<char>)>::empty());
    }
    None
}

/// Relates the pipeline's result to the body it was given and the
/// configured limits, stage by stage. The first failing stage decides
/// the rejection; on success the record holds exactly the validated
/// name and email texts, the last value winning for a duplicate key.
pub open spec fn form_outcome_matches(
    body: Seq<u8>,
    max_body: nat,
    max_fields: nat,
    r: Result<StrictForm<Subscriber>, StrictFormRejection>,
) -> bool {
    if body.len() > max_body {
        r == Err::<StrictForm<Subscriber>, StrictFormRejection>(
            StrictFormRejection::PayloadTooLarge,
        )
    } else if pe_invalid(body) {
        r == Err::<StrictForm<Subscriber>, StrictFormRejection>(
            StrictFormRejection::InvalidPercentEncoding,
        )
    } else if form_pairs(body).len() > max_fields {
        r == Err::<StrictForm<Subscriber>, StrictFormRejection>(StrictFormRejection::TooManyFields)
    } else if !all_pairs_text_ok(form_pairs(body)) {
        r == Err::<StrictForm<Subscriber>, StrictFormRejection>(StrictFormRejection::InvalidUtf8)
    } else {
        let texts = texts_of(form_pairs(body));
        match (lookup_text(texts, "name"@), lookup_text(texts, "email"@)) {
            (None, _) => r matches Err(StrictFormRejection::InvalidFormStructure(m)) && m@
                == "missing field `name`"@,
            (Some(_), None) => r matches Err(StrictFormRejection::InvalidFormStructure(m)) && m@
                == "missing field `email`"@,
            (Some(nv), Some(ev)) => {
                if !name_ok(nv) {
                    r matches Err(StrictFormRejection::DomainValidation(m)) && m@ == name_error(nv)
                } else if !email_ok(ev) {
                    r matches Err(StrictFormRejection::DomainValidation(m)) && m@ == email_error(ev)
                } else {
                    r matches Ok(f) && f.0.name@ == nv && f.0.email@ == ev
                }
            },
        }
    }
}

/// Runs the whole pipeline over a request body: size cap, percent-escape
/// scan, structural parse, field-count cap, UTF-8 conversion, field
/// selection and domain validation, in that order, aborting at the first
/// failure.
///
/// The caller reads the body from the transport; a transport-level read
/// failure is [`StrictFormRejection::ReadBody`], which this function
/// itself never returns.
pub fn process_subscription_form(body: &[u8], limits: &FormLimits) -> (r: Result<
    StrictForm<Subscriber>,
    StrictFormRejection,
>)
    requires
        limits.max_body_bytes < usize::MAX,
    ensures
        form_outcome_matches(body@, limits.max_body_bytes as nat, limits.max_fields as nat, r),
{
    if body.len() > limits.max_body_bytes {
        return Err(StrictFormRejection::PayloadTooLarge);
    }
    if percent_encoding_is_invalid(body) {
        return Err(StrictFormRejection::InvalidPercentEncoding);
    }
    let parsed = parse_raw_form(body);
    if parsed.len() > limits.max_fields {
        return Err(StrictFormRejection::TooManyFields);
    }
    let texts = match to_text_pairs(&parsed) {
        Some(t) => t,
        None => {
            return Err(StrictFormRejection::InvalidUtf8);
        },
    };
    let name_key = String::from_str("name");
    let email_key = String::from_str("email");
    let name_text = match lookup_field(&texts, &name_key) {
        Some(v) => v,
        None => {
            return Err(
                StrictFormRejection::InvalidFormStructure(String::from_str("missing field `name`")),
            );
        },
    };
    let email_text = match lookup_field(&texts, &email_key) {
        Some(v) => v,
        None => {
            return Err(
                StrictFormRejection::InvalidFormStructure(
                    String::from_str("missing field `email`"),
                ),
            );
        },
    };
    let name = match SubscriberName::try_from(name_text) {
        Ok(n) => n,
        Err(m) => {
            return Err(StrictFormRejection::DomainValidation(m));
        },
    };
    let email = match SubscriberEmail::try_from(email_text) {
        Ok(e) => e,
        Err(m) => {
            return Err(StrictFormRejection::DomainValidation(m));
        },
    };
    Ok(StrictForm(Subscriber { name, email }))
}

/// Law: a body within the size cap that contains a malformed percent
/// escape, wherever in the buffer it occurs, is rejected as
/// `InvalidPercentEncoding`.
pub proof fn lemma_bad_escape_rejected(
    body: Seq<u8>,
    max_body: nat,
    max_fields: nat,
    r: Result<StrictForm<Subscriber>, StrictFormRejection>,
)
    requires
        body.len() <= max_body,
        pe_invalid(body),
        form_outcome_matches(body, max_body, max_fields, r),
    ensures
        r == Err::<StrictForm<Subscriber>, StrictFormRejection>(
            StrictFormRejection::InvalidPercentEncoding,
        ),
{
}

/// Law: when the earlier stages pass and any parsed field holds a NUL
/// byte, the pipeline rejects with `InvalidUtf8`, never with a
/// downstream domain rejection.
pub proof fn lemma_nul_field_rejected(
    body: Seq<u8>,
    max_body: nat,
    max_fields: nat,
    i: int,
    r: Result<StrictForm<Subscriber>, StrictFormRejection>,
)
    requires
        body.len() <= max_body,
        !pe_invalid(body),
        form_pairs(body).len() <= max_fields,
        0 <= i < form_pairs(body).len(),
        form_pairs(body)[i].0.contains(0u8) || form_pairs(body)[i].1.contains(0u8),
        form_outcome_matches(body, max_body, max_fields, r),
    ensures
        r == Err::<StrictForm<Subscriber>, StrictFormRejection>(StrictFormRejection::InvalidUtf8),
{
    assert(!pair_text_ok(form_pairs(body)[i].0, form_pairs(body)[i].1));
    assert(!all_pairs_text_ok(form_pairs(body)));
}

/// A transmittable body for a subscription: `name=` and `&email=` frame
/// the two percent-encoded UTF-8 fields.
pub open spec fn encode_form_body(name: Seq<char>, email: Seq<char>) -> Seq<u8> {
    encode_utf8("name="@) + pencode(encode_utf8(name)) + encode_utf8("&email="@) + pencode(
        encode_utf8(email),
    )
}

/// Builds a transmittable body for the pair: each field percent-encoded
/// with the decoder's inverse, framed as `name=<..>&email=<..>`.
pub fn encode_subscription_form(name: &str, email: &str) -> (out: Vec<u8>)
    ensures
        out@ == encode_form_body(name@, email@),
{
    let mut out: Vec<u8> = Vec::new();
    out.push(0x6e);
    out.push(0x61);
    out.push(0x6d);
    out.push(0x65);
    out.push(0x3d);
    proof {
        reveal_strlit("name=");
        assert(is_ascii_chars("name="@));
        is_ascii_chars_encode_utf8("name="@);
        assert(out@ =~= encode_utf8("name="@));
    }
    let ghost pre = out@;
    let mut encn = percent_encode_bytes(name.as_bytes());
    out.append(&mut encn);
    let ghost with_name = out@;
    out.push(0x26);
    out.push(0x65);
    out.push(0x6d);
    out.push(0x61);
    out.push(0x69);
    out.push(0x6c);
    out.push(0x3d);
    proof {
        reveal_strlit("&email=");
        assert(is_ascii_chars("&email="@));
        is_ascii_chars_encode_utf8("&email="@);
        assert(out@ =~= with_name + encode_utf8("&email="@));
    }
    let mut ence = percent_encode_bytes(email.as_bytes());
    out.append(&mut ence);
    proof {
        assert(out@ =~= encode_form_body(name@, email@));
    }
    out
}

/// Law: the round trip through the whole pipeline. A body built by
/// [`encode_form_body`] from a valid name and a valid email passes every
/// stage and yields exactly the two texts. The one family of inputs left
/// out: a field containing the NUL character, which the UTF-8 stage
/// rejects by design even though the domain rules allow it.
pub proof fn lemma_form_round_trip(
    name: Seq<char>,
    email: Seq<char>,
    max_body: nat,
    max_fields: nat,
    r: Result<StrictForm<Subscriber>, StrictFormRejection>,
)
    requires
        name_ok(name),
        email_ok(email),
        !contains_char(name, '\0'),
        !contains_char(email, '\0'),
        encode_form_body(name, email).len() <= max_body,
        2 <= max_fields,
        form_outcome_matches(encode_form_body(name, email), max_body, max_fields, r),
    ensures
        r matches Ok(f) && f.0.name@ == name && f.0.email@ == email,
{
    reveal_strlit("name=");
    reveal_strlit("&email=");
    reveal_strlit("name");
    reveal_strlit("email");

    let nb = encode_utf8(name);
    let eb = encode_utf8(email);
    let encn = pencode(nb);
    let ence = pencode(eb);
    let pre = encode_utf8("name="@);
    let mid = encode_utf8("&email="@);
    let body = encode_form_body(name, email);
    let kn = encode_utf8("name"@);
    let ke = encode_utf8("email"@);

    assert(is_ascii_chars("name="@));
    assert(is_ascii_chars("&email="@));
    assert(is_ascii_chars("name"@));
    assert(is_ascii_chars("email"@));
    is_ascii_chars_encode_utf8("name="@);
    is_ascii_chars_encode_utf8("&email="@);
    is_ascii_chars_encode_utf8("name"@);
    is_ascii_chars_encode_utf8("email"@);

    assert(pre =~= seq![0x6eu8, 0x61u8, 0x6du8, 0x65u8, 0x3du8]);
    assert(mid =~= seq![0x26u8, 0x65u8, 0x6du8, 0x61u8, 0x69u8, 0x6cu8, 0x3du8]);
    assert(kn =~= seq![0x6eu8, 0x61u8, 0x6du8, 0x65u8]);
    assert(ke =~= seq![0x65u8, 0x6du8, 0x61u8, 0x69u8, 0x6cu8]);

    let l1 = encn.len() as int;
    let l2 = ence.len() as int;
    let n = body.len() as int;
    assert(n == 12 + l1 + l2);

    // where each region of the body comes from
    assert forall|j: int| 0 <= j < 5 implies body[j] == pre[j] by {
        assert((pre + encn)[j] == pre[j]);
        assert(((pre + encn) + mid)[j] == (pre + encn)[j]);
        assert(body[j] == ((pre + encn) + mid)[j]);
    }
    assert forall|j: int| 5 <= j < 5 + l1 implies body[j] == encn[j - 5] by {
        assert((pre + encn)[j] == encn[j - 5]);
        assert(((pre + encn) + mid)[j] == (pre + encn)[j]);
        assert(body[j] == ((pre + encn) + mid)[j]);
    }
    assert forall|j: int| 5 + l1 <= j < 12 + l1 implies body[j] == mid[j - 5 - l1] by {
        assert(((pre + encn) + mid)[j] == mid[j - 5 - l1]);
        assert(body[j] == ((pre + encn) + mid)[j]);
    }
    assert forall|j: int| 12 + l1 <= j < n implies body[j] == ence[j - 12 - l1] by {
        assert(body[j] == ence[j - 12 - l1]);
    }

    // the encoded fields never hold a structural byte
    assert forall|k: int| 0 <= k < l1 implies encn[k] != 0x26 && encn[k] != 0x3d by {
        lemma_pencode_alphabet(nb, 0, k);
    }
    assert forall|k: int| 0 <= k < l2 implies ence[k] != 0x26 && ence[k] != 0x3d by {
        lemma_pencode_alphabet(eb, 0, k);
    }

    // the percent-escape scan accepts the body
    assert(pe_invalid_from(body, 0) == pe_invalid_from(body, 1));
    assert(pe_invalid_from(body, 1) == pe_invalid_from(body, 2));
    assert(pe_invalid_from(body, 2) == pe_invalid_from(body, 3));
    assert(pe_invalid_from(body, 3) == pe_invalid_from(body, 4));
    assert(pe_invalid_from(body, 4) == pe_invalid_from(body, 5));
    lemma_pe_invalid_shift(body, 5);
    let tail5 = mid + ence;
    assert(body.skip(5) =~= encn + tail5);
    lemma_pencode_prepend(nb, 0, tail5);
    assert(pe_invalid(encn + tail5) == pe_invalid(tail5));
    assert forall|j: int| 0 <= j < 7 implies tail5[j] == mid[j] by {}
    assert(pe_invalid_from(tail5, 0) == pe_invalid_from(tail5, 1));
    assert(pe_invalid_from(tail5, 1) == pe_invalid_from(tail5, 2));
    assert(pe_invalid_from(tail5, 2) == pe_invalid_from(tail5, 3));
    assert(pe_invalid_from(tail5, 3) == pe_invalid_from(tail5, 4));
    assert(pe_invalid_from(tail5, 4) == pe_invalid_from(tail5, 5));
    assert(pe_invalid_from(tail5, 5) == pe_invalid_from(tail5, 6));
    assert(pe_invalid_from(tail5, 6) == pe_invalid_from(tail5, 7));
    lemma_pe_invalid_shift(tail5, 7);
    assert(tail5.skip(7) =~= ence);
    lemma_percent_round_trip(eb);
    assert(!pe_invalid(body));

    // structural parse: exactly the two expected pairs
    lemma_next_byte_at(body, 0, n, 0x26, 5 + l1);
    lemma_next_byte_at(body, 0, 5 + l1, 0x3d, 4);
    assert(body.subrange(0, 4) =~= kn);
    lemma_pdecode_passthrough(kn, 0);
    assert(kn.skip(0) =~= kn);
    assert(body.subrange(5, 5 + l1) =~= encn);
    lemma_percent_round_trip(nb);
    assert(seg_pair(body, 0, 5 + l1) == (kn, nb));

    lemma_next_byte_at(body, 6 + l1, n, 0x26, n);
    lemma_next_byte_at(body, 6 + l1, n, 0x3d, 11 + l1);
    assert(body.subrange(6 + l1, 11 + l1) =~= ke);
    lemma_pdecode_passthrough(ke, 0);
    assert(ke.skip(0) =~= ke);
    assert(body.subrange(12 + l1, n) =~= ence);
    assert(seg_pair(body, 6 + l1, n) == (ke, eb));

    assert(pairs_from(body, 0) == seq![(kn, nb)] + pairs_from(body, 6 + l1));
    assert(pairs_from(body, 6 + l1) == seq![(ke, eb)] + pairs_from(body, n + 1));
    assert(pairs_from(body, n + 1) =~= Seq::<(Seq<u8>, Seq<u8>)>::empty());
    let pairs = form_pairs(body);
    assert(pairs =~= seq![(kn, nb), (ke, eb)]);
    assert(pairs.len() == 2);

    // the UTF-8 stage accepts both pairs
    encode_utf8_valid_utf8("name"@);
    encode_utf8_valid_utf8("email"@);
    encode_utf8_valid_utf8(name);
    encode_utf8_valid_utf8(email);
    assert forall|i: int| 0 <= i < name.len() implies name[i] != '\0' by {
        if name[i] == '\0' {
            assert(contains_char(name, '\0'));
        }
    }
    assert forall|i: int| 0 <= i < email.len() implies email[i] != '\0' by {
        if email[i] == '\0' {
            assert(contains_char(email, '\0'));
        }
    }
    lemma_no_nul_char_no_nul_byte(name);
    lemma_no_nul_char_no_nul_byte(email);
    assert(!kn.contains(0u8));
    assert(!ke.contains(0u8));
    assert(pair_text_ok(kn, nb));
    assert(pair_text_ok(ke, eb));
    assert forall|i: int| 0 <= i < pairs.len() implies pair_text_ok(
        pairs[i].0,
        pairs[i].1,
    ) by {
        if i == 0 {
            assert(pairs[i] == (kn, nb));
        } else {
            assert(pairs[i] == (ke, eb));
        }
    }
    assert(all_pairs_text_ok(pairs));

    // the selected fields are exactly the two texts
    let texts = texts_of(pairs);
    encode_utf8_decode_utf8("name"@);
    encode_utf8_decode_utf8("email"@);
    encode_utf8_decode_utf8(name);
    encode_utf8_decode_utf8(email);
    assert(texts =~= seq![("name"@, name), ("email"@, email)]);
    assert("name"@.len() == 4 && "email"@.len() == 5);
    assert("email"@ != "name"@);
    assert(texts.last() == ("email"@, email));
    assert(lookup_text(texts, "email"@) == Some(email));
    let first_only = texts.drop_last();
    assert(lookup_text(texts, "name"@) == lookup_text(first_only, "name"@));
    assert(first_only =~= seq![("name"@, name)]);
    assert(first_only.last() == ("name"@, name));
    assert(lookup_text(first_only, "name"@) == Some(name));
}

/// Law: a NUL byte anywhere in an in-limit body whose escapes are well
/// formed is rejected as `InvalidUtf8`: the splitter and the decoder
/// both keep a raw NUL, so it always reaches the UTF-8 stage of some
/// field. Together with [`lemma_nul_field_rejected`], which covers a NUL
/// that appears only after decoding (a `%00` escape), this holds for NUL
/// bytes both before and after decoding.
pub proof fn lemma_raw_nul_rejected(
    body: Seq<u8>,
    max_body: nat,
    max_fields: nat,
    k: int,
    r: Result<StrictForm<Subscriber>, StrictFormRejection>,
)
    requires
        body.len() <= max_body,
        !pe_invalid(body),
        form_pairs(body).len() <= max_fields,
        0 <= k < body.len(),
        body[k] == 0,
        form_outcome_matches(body, max_body, max_fields, r),
    ensures
        r == Err::<StrictForm<Subscriber>, StrictFormRejection>(StrictFormRejection::InvalidUtf8),
{
    lemma_nul_reaches_pair(body, 0, k);
    let i = choose|i: int|
        0 <= i < pairs_from(body, 0).len() && #[trigger] pair_has_nul(pairs_from(body, 0)[i]);
    assert(!pair_text_ok(form_pairs(body)[i].0, form_pairs(body)[i].1));
    assert(!all_pairs_text_ok(form_pairs(body)));
}

/// The storage outcomes that the orchestrator's caller distinguishes.
#[derive(Debug, PartialEq, Eq)]
pub enum PersistOutcome {
    /// The record was inserted.
    Inserted,
    /// The storage layer reported a duplicate key.
    UniqueViolation,
    /// The storage layer reported a foreign-key violation.
    ForeignKeyViolation,
    /// Any other storage failure.
    OtherFailure,
}

/// The HTTP status for each storage outcome.
pub open spec fn spec_persistence_status(o: PersistOutcome) -> u16 {
    match o {
        PersistOutcome::Inserted => 201,
        PersistOutcome::UniqueViolation => 409,
        PersistOutcome::ForeignKeyViolation => 400,
        PersistOutcome::OtherFailure => 500,
    }
}

/// The HTTP status code reported for a storage outcome.
pub fn persistence_status(o: &PersistOutcome) -> (c: u16)
    ensures
        c == spec_persistence_status(*o),
{
    match o {
        PersistOutcome::Inserted => 201,
        PersistOutcome::UniqueViolation => 409,
        PersistOutcome::ForeignKeyViolation => 400,
        PersistOutcome::OtherFailure => 500,
    }
}

/// The five-byte SQLSTATE code for a unique violation, `23505`.
pub open spec fn unique_violation_code() -> Seq<u8> {
    seq![0x32u8, 0x33u8, 0x35u8, 0x30u8, 0x35u8]
}

/// The five-byte SQLSTATE code for a foreign-key violation, `23503`.
pub open spec fn foreign_key_violation_code() -> Seq<u8> {
    seq![0x32u8, 0x33u8, 0x35u8, 0x30u8, 0x33u8]
}

/// Classifies the SQLSTATE code of a database error into a storage
/// outcome; [`PersistOutcome::Inserted`] is never returned.
pub fn classify_db_error_code(code: &[u8]) -> (o: PersistOutcome)
    ensures
        o == (if code@ == unique_violation_code() {
            PersistOutcome::UniqueViolation
        } else if code@ == foreign_key_violation_code() {
            PersistOutcome::ForeignKeyViolation
        } else {
            PersistOutcome::OtherFailure
        }),
{
    if code.len() == 5 && code[0] == 0x32 && code[1] == 0x33 && code[2] == 0x35 && code[3]
        == 0x30 {
        if code[4] == 0x35 {
            proof {
                assert(code@ =~= unique_violation_code());
            }
            return PersistOutcome::UniqueViolation;
        }
        if code[4] == 0x33 {
            proof {
                assert(code@ =~= foreign_key_violation_code());
            }
            return PersistOutcome::ForeignKeyViolation;
        }
    }
    PersistOutcome::OtherFailure
}

} // verus!
