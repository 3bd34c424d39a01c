//! Preparing a Csound document for the engine: the orchestra header that the
//! host's settings ask for, and the `ksmps` that the document sets.
use vstd::prelude::*;
use crate::interface::Config;
use crate::text::{chars_of, decimal, find, find_chars, lemma_find, parse_unsigned,
    parse_unsigned_chars, push_chars, push_str, render_decimal, slice_chars, string_of};

verus! {

broadcast use vstd::string::group_string_axioms;

/// Why a Csound document cannot be prepared.
#[derive(PartialEq, Debug)]
pub enum CsdError {
    /// The document has no `<CsInstruments>` section.
    MissingCsInstruments,
    /// The document does not set `ksmps`.
    MissingKsmps,
    /// The digits that set `ksmps` are not a `u64`; the digits.
    BadKsmps(String),
}

/// `s` with `header` inserted right after the first `<CsInstruments>`, if there is one.
pub open spec fn spec_insert_header(s: Seq<char>, header: Seq<char>) -> Option<Seq<char>> {
    match find(s, "<CsInstruments>"@) {
        None => None,
        Some(i) => Some(s.take(i + 15) + header + s.skip(i + 15)),
    }
}

/// The header that sets the sample rate (48000 times the upsampling factor)
/// and the output and input channel counts.
pub open spec fn header_with_inputs(config: Config) -> Seq<char> {
    "\nsr="@ + decimal((48000 * config.upsampling_factor) as nat) + "\nnchnls="@ + decimal(
        config.num_out_channels as nat,
    ) + "\nnchnls_i="@ + decimal(config.num_in_channels as nat) + "\n"@
}

/// The header that sets the sample rate, `ksmps` and the output channel count.
pub open spec fn header_with_ksmps(config: Config, ksmps: u64) -> Seq<char> {
    "\nsr="@ + decimal((48000 * config.upsampling_factor) as nat) + "\nksmps="@ + decimal(
        ksmps as nat,
    ) + "\nnchnls="@ + decimal(config.num_out_channels as nat) + "\n"@
}

fn insert_header(s: &Vec<char>, header: &Vec<char>) -> (r: Option<Vec<char>>)
    ensures
        match r {
            Some(v) => spec_insert_header(s@, header@) == Some(v@),
            None => spec_insert_header(s@, header@) is None,
        },
{
    proof {
        reveal_strlit("<CsInstruments>");
    }
    let tag = chars_of("<CsInstruments>");
    proof {
        lemma_find(s@, tag@);
    }
    match find_chars(s, &tag) {
        None => None,
        Some(i) => {
            let n = s.len();
            assert(tag@.len() == 15);
            assert(i + 15 <= n);
            let mut v = slice_chars(s, 0, i + 15);
            push_chars(&mut v, header);
            let rest = slice_chars(s, i + 15, s.len());
            push_chars(&mut v, &rest);
            assert(v@ =~= s@.take(i + 15) + header@ + s@.skip(i + 15));
            Some(v)
        },
    }
}

/// The leftmost match of the regular expression `ksmps\s*=\s*(\d+)` in a text,
/// as the regex crate finds it: the text of its capture group.
pub uninterp spec fn ksmps_capture(text: Seq<char>) -> Option<Seq<char>>;

/// Calls `regex::Regex::captures` with the pattern `ksmps\s*=\s*(\d+)` (which
/// compiles) and gives the text of group 1 of the leftmost match. The contract
/// names that result and says no more of it.
#[verifier::external_body]
fn find_ksmps_digits(text: &str) -> (r: Option<String>)
    ensures
        match r {
            Some(d) => ksmps_capture(text@) == Some(d@),
            None => ksmps_capture(text@) is None,
        },
{
    let re = regex::Regex::new(r"ksmps\s*=\s*(\d+)").unwrap();
    match re.captures(text) {
        Some(caps) => Some(caps[1].to_string()),
        None => None,
    }
}

/// What preparing a document with [`init2`] gives: the document with the
/// header, and the `ksmps` that it sets.
pub open spec fn spec_init2(csd: Seq<char>, config: Config) -> Result<(Seq<char>, u64), Option<Seq<char>>> {
    match spec_insert_header(csd, header_with_inputs(config)) {
        None => Err(None),
        Some(doc) => match ksmps_capture(doc) {
            None => Err(Some(Seq::empty())),
            Some(d) => match parse_unsigned(d, u64::MAX as nat) {
                None => Err(Some(d)),
                Some(k) => Ok((doc, k as u64)),
            },
        },
    }
}

/// Gives the document `csd` the header that sets the sample rate and the
/// output and input channel counts, and reads the `ksmps` that the document
/// sets (after the header was added).
pub fn init2(csd: &str, config: &Config) -> (r: Result<(String, u64), CsdError>)
    requires
        48000 * config.upsampling_factor <= u32::MAX,
    ensures
        match r {
            Ok((doc, k)) => spec_init2(csd@, *config) == Ok::<(Seq<char>, u64), Option<Seq<char>>>((doc@, k)),
            Err(CsdError::MissingCsInstruments) => spec_insert_header(csd@, header_with_inputs(*config)) is None,
            Err(CsdError::MissingKsmps) => spec_insert_header(csd@, header_with_inputs(*config)) matches Some(doc)
                && ksmps_capture(doc) is None,
            Err(CsdError::BadKsmps(d)) => spec_init2(csd@, *config) == Err::<(Seq<char>, u64), Option<Seq<char>>>(Some(d@))
                && ksmps_capture(spec_insert_header(csd@, header_with_inputs(*config))->0) == Some(d@),
        },
{
    let s = chars_of(csd);
    let mut header = chars_of("\nsr=");
    let sr = render_decimal((48000 * config.upsampling_factor) as u64);
    push_chars(&mut header, &sr);
    push_str(&mut header, "\nnchnls=");
    let out = render_decimal(config.num_out_channels as u64);
    push_chars(&mut header, &out);
    push_str(&mut header, "\nnchnls_i=");
    let inp = render_decimal(config.num_in_channels as u64);
    push_chars(&mut header, &inp);
    push_str(&mut header, "\n");
    assert(header@ =~= header_with_inputs(*config));
    let doc = match insert_header(&s, &header) {
        None => return Err(CsdError::MissingCsInstruments),
        Some(d) => string_of(&d),
    };
    let capture = find_ksmps_digits(doc.as_str());
    match ksmps_value(capture) {
        Err(e) => Err(e),
        Ok(k) => Ok((doc, k)),
    }
}

/// The `ksmps` that the regular expression's capture sets: the value of its
/// digits, or why there is none.
pub fn ksmps_value(capture: Option<String>) -> (r: Result<u64, CsdError>)
    ensures
        match capture {
            None => r == Err::<u64, CsdError>(CsdError::MissingKsmps),
            Some(d) => match parse_unsigned(d@, u64::MAX as nat) {
                Some(k) => r == Ok::<u64, CsdError>(k as u64),
                None => r matches Err(CsdError::BadKsmps(e)) && e@ == d@,
            },
        },
{
    match capture {
        None => Err(CsdError::MissingKsmps),
        Some(digits) => {
            let dv = chars_of(digits.as_str());
            match parse_unsigned_chars(&dv, u64::MAX) {
                None => Err(CsdError::BadKsmps(digits)),
                Some(k) => Ok(k),
            }
        },
    }
}

/// Gives the document `csd` the header that sets the sample rate, `ksmps` and
/// the output channel count; `None` when it has no `<CsInstruments>` section.
pub fn init(csd: &str, ksmps: u64, config: &Config) -> (r: Option<String>)
    requires
        48000 * config.upsampling_factor <= u32::MAX,
    ensures
        match r {
            Some(doc) => spec_insert_header(csd@, header_with_ksmps(*config, ksmps)) == Some(doc@),
            None => spec_insert_header(csd@, header_with_ksmps(*config, ksmps)) is None,
        },
{
    let s = chars_of(csd);
    let mut header = chars_of("\nsr=");
    let sr = render_decimal((48000 * config.upsampling_factor) as u64);
    push_chars(&mut header, &sr);
    push_str(&mut header, "\nksmps=");
    let k = render_decimal(ksmps);
    push_chars(&mut header, &k);
    push_str(&mut header, "\nnchnls=");
    let out = render_decimal(config.num_out_channels as u64);
    push_chars(&mut header, &out);
    push_str(&mut header, "\n");
    assert(header@ =~= header_with_ksmps(*config, ksmps));
    match insert_header(&s, &header) {
        None => None,
        Some(d) => Some(string_of(&d)),
    }
}

/// The document that `init2` prepares is the given one with, right after
/// its first `<CsInstruments>`, the lines `sr=` 48000 times the upsampling
/// factor, `nchnls=` the number of output channels and `nchnls_i=` the
/// number of input channels; without `<CsInstruments>` it is refused.
pub proof fn law_init2_header(csd: Seq<char>, config: Config)
    ensures
        find(csd, "<CsInstruments>"@) matches Some(i) ==> {
            let doc = csd.take(i + 15) + "\nsr="@ + decimal((48000 * config.upsampling_factor) as nat)
                + "\nnchnls="@ + decimal(config.num_out_channels as nat) + "\nnchnls_i="@ + decimal(
                config.num_in_channels as nat,
            ) + "\n"@ + csd.skip(i + 15);
            &&& spec_insert_header(csd, header_with_inputs(config)) == Some(doc)
            &&& spec_init2(csd, config) matches Ok((d, _)) ==> d == doc
            &&& spec_init2(csd, config) is Err ==> spec_init2(csd, config) != Err::<(Seq<char>, u64), Option<Seq<char>>>(None)
        },
        find(csd, "<CsInstruments>"@) is None ==> spec_init2(csd, config) == Err::<(Seq<char>, u64), Option<Seq<char>>>(None),
{
    if let Some(i) = find(csd, "<CsInstruments>"@) {
        let doc = csd.take(i + 15) + "\nsr="@ + decimal((48000 * config.upsampling_factor) as nat)
            + "\nnchnls="@ + decimal(config.num_out_channels as nat) + "\nnchnls_i="@ + decimal(
            config.num_in_channels as nat,
        ) + "\n"@ + csd.skip(i + 15);
        assert(csd.take(i + 15) + header_with_inputs(config) + csd.skip(i + 15) =~= doc);
    }
}

/// The document that `init` prepares is the given one with, right after its
/// first `<CsInstruments>`, the lines `sr=` 48000 times the upsampling
/// factor, `ksmps=` the given `ksmps` and `nchnls=` the number of output
/// channels.
pub proof fn law_init_header(csd: Seq<char>, ksmps: u64, config: Config)
    ensures
        find(csd, "<CsInstruments>"@) matches Some(i) ==> spec_insert_header(csd, header_with_ksmps(config, ksmps))
            == Some(csd.take(i + 15) + "\nsr="@ + decimal((48000 * config.upsampling_factor) as nat) + "\nksmps="@
            + decimal(ksmps as nat) + "\nnchnls="@ + decimal(config.num_out_channels as nat) + "\n"@ + csd.skip(
            i + 15,
        )),
        find(csd, "<CsInstruments>"@) is None ==> spec_insert_header(csd, header_with_ksmps(config, ksmps)) is None,
{
    if let Some(i) = find(csd, "<CsInstruments>"@) {
        assert(csd.take(i + 15) + header_with_ksmps(config, ksmps) + csd.skip(i + 15) =~= csd.take(i + 15) + "\nsr="@
            + decimal((48000 * config.upsampling_factor) as nat) + "\nksmps="@ + decimal(ksmps as nat) + "\nnchnls="@
            + decimal(config.num_out_channels as nat) + "\n"@ + csd.skip(i + 15));
    }
}

} // verus!
