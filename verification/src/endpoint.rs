//! The two addresses of the portal that belong to an office: the query for
//! its next free date and the page on which a visitor books.
//!
//! The addresses are put together by the `url` crate. An address is handed
//! out only if it is, letter for letter, the documented one for the office,
//! so whatever holds of [`endpoint_text`] holds of every address in use.
//!
//! An id may hold anything. In the query it stands form-encoded; on the
//! booking page it stands as one path segment, every byte that could end
//! the path or open a query percent-encoded.

use crate::structs::SchedulerError;
use crate::text::{
    find, form_decoded, form_encoded, free_of, lemma_find, lemma_find_behind,
    lemma_form_encoded_chars, lemma_form_round_trip, lemma_segment_encoded_chars,
    lemma_segment_round_trip, lemma_split_around, lemma_split_whole, percent_decoded,
    push_form_encoded, push_segment_encoded, segment_encoded, split, text_eq,
};
use vstd::prelude::*;
use vstd::string::*;
use vstd::utf8::*;

verus! {

/// The operations of the portal.
#[derive(Debug, Clone, Copy, PartialEq, Eq, Structural)]
pub enum DmvEndpoints {
    /// Asks for the next free date of an office; the office is named in the
    /// query string.
    GetNextAvailableDate,
    /// The booking page of an office; the office is named in the path.
    AppointmentWizard,
}

/// The error of the `url` crate's parser.
#[verifier::external_type_specification]
#[verifier::external_body]
pub struct ExParseError(url::ParseError);

/// What the `url` crate makes of `reference` read against the address `base`:
/// the text of the resulting address, or `None` where it rejects either.
pub uninterp spec fn url_joined(base: Seq<char>, reference: Seq<char>) -> Option<Seq<char>>;

/// What the `url` crate makes of the address `url` once the pair `name`,
/// `value` is appended to its query: the text of the resulting address, or
/// `None` where it rejects `url`.
pub uninterp spec fn url_with_query_pair(
    url: Seq<char>,
    name: Seq<char>,
    value: Seq<char>,
) -> Option<Seq<char>>;

/// The longest address, in characters, that is handed to the `url` crate for
/// a change of its query.
pub const MAX_ADDRESS_CHARS: usize = 0x10_0000;

/// Resolves `reference` against `base`.
///
/// Trusted: `Url::parse` on `base`, `Url::join` on the result with
/// `reference`, and `Url::as_str`. The contract only gives the outcome its
/// name, [`url_joined`]: the text of the joined address, or that one of the
/// two steps failed.
#[verifier::external_body]
fn join_url(base: &str, reference: &str) -> (r: Result<String, url::ParseError>)
    ensures
        match r {
            Ok(text) => url_joined(base@, reference@) == Some(text@),
            Err(_) => url_joined(base@, reference@) is None,
        },
{
    let joined = url::Url::parse(base)?.join(reference)?;
    Ok(joined.as_str().to_string())
}

/// Appends one pair to the query of `url`.
///
/// Trusted: `Url::parse` on `url`, `Url::query_pairs_mut` and
/// `Serializer::append_pair` on the result, and `Url::as_str`. The contract
/// only gives the outcome its name, [`url_with_query_pair`]. The `url` crate
/// keeps positions inside an address as `u32` and unwraps that conversion in
/// two places: in `query_pairs_mut`, for the place of a new query, and when
/// it puts a fragment back behind the grown query. So the text must be short
/// enough for its parsed form to stay below four gigabytes, and must have no
/// fragment.
#[verifier::external_body]
fn append_query_pair(url: &str, name: &str, value: &str) -> (r: Result<String, url::ParseError>)
    requires
        url@.len() <= MAX_ADDRESS_CHARS,
        free_of(url@, '#'),
    ensures
        match r {
            Ok(text) => url_with_query_pair(url@, name@, value@) == Some(text@),
            Err(_) => url_with_query_pair(url@, name@, value@) is None,
        },
{
    let mut parsed = url::Url::parse(url)?;
    parsed.query_pairs_mut().append_pair(name, value);
    Ok(parsed.as_str().to_string())
}

/// The address under which the portal lives.
pub open spec fn base_text() -> Seq<char> {
    "https://telegov.njportal.com/njmvc/"@
}

/// The address of an operation before an office is named.
pub open spec fn stem_text(endpoint: DmvEndpoints) -> Seq<char> {
    match endpoint {
        DmvEndpoints::GetNextAvailableDate => base_text()
            + "CustomerCreateAppointments/GetNextAvailableDate"@,
        DmvEndpoints::AppointmentWizard => base_text() + "AppointmentWizard/15/"@,
    }
}

/// The query address with the appointment type in it, before an office is
/// named.
pub open spec fn typed_query_text() -> Seq<char> {
    stem_text(DmvEndpoints::GetNextAvailableDate) + "?appointmentTypeId=15"@
}

/// The documented address of `endpoint` for the office `location_id`.
///
/// The query names the office in a second pair, form-encoded; the booking
/// page names it as the last segment of the path, percent-encoded.
pub open spec fn endpoint_text(endpoint: DmvEndpoints, location_id: Seq<char>) -> Seq<char> {
    match endpoint {
        DmvEndpoints::GetNextAvailableDate => typed_query_text() + "&locationId="@ + form_encoded(
            encode_utf8(location_id),
        ),
        DmvEndpoints::AppointmentWizard => stem_text(DmvEndpoints::AppointmentWizard)
            + segment_encoded(encode_utf8(location_id)),
    }
}

/// Whether the `url` crate, asked step by step, arrives at the documented
/// address of `endpoint` for `location_id`.
pub open spec fn endpoint_resolves(endpoint: DmvEndpoints, location_id: Seq<char>) -> bool {
    match endpoint {
        DmvEndpoints::GetNextAvailableDate => {
            &&& url_joined(base_text(), "CustomerCreateAppointments/GetNextAvailableDate"@)
                == Some(stem_text(endpoint))
            &&& url_with_query_pair(stem_text(endpoint), "appointmentTypeId"@, "15"@) == Some(
                typed_query_text(),
            )
            &&& url_with_query_pair(typed_query_text(), "locationId"@, location_id) == Some(
                endpoint_text(endpoint, location_id),
            )
        },
        DmvEndpoints::AppointmentWizard => {
            &&& url_joined(base_text(), "AppointmentWizard/15/"@) == Some(stem_text(endpoint))
            &&& url_joined(stem_text(endpoint), segment_encoded(encode_utf8(location_id)))
                == Some(endpoint_text(endpoint, location_id))
        },
    }
}

/// The address under which the portal lives.
pub fn base_url() -> (base: &'static str)
    ensures
        base@ == base_text(),
{
    "https://telegov.njportal.com/njmvc/"
}

/// The address of `endpoint` before an office is named.
pub fn stem(endpoint: DmvEndpoints) -> (text: String)
    ensures
        text@ == stem_text(endpoint),
{
    let text = String::from_str(base_url());
    match endpoint {
        DmvEndpoints::GetNextAvailableDate => text.concat(
            "CustomerCreateAppointments/GetNextAvailableDate",
        ),
        DmvEndpoints::AppointmentWizard => text.concat("AppointmentWizard/15/"),
    }
}

/// The documented address of `endpoint` for `location_id`, written out
/// without the `url` crate.
pub fn documented_endpoint(endpoint: DmvEndpoints, location_id: &str) -> (text: String)
    ensures
        text@ == endpoint_text(endpoint, location_id@),
{
    match endpoint {
        DmvEndpoints::GetNextAvailableDate => {
            let mut text = stem(endpoint).concat("?appointmentTypeId=15").concat("&locationId=");
            push_form_encoded(&mut text, location_id);
            text
        },
        DmvEndpoints::AppointmentWizard => {
            let mut text = stem(endpoint);
            push_segment_encoded(&mut text, location_id);
            text
        },
    }
}

/// Hands `candidate` on if it is the text `expected`.
pub fn confirm(candidate: Result<String, url::ParseError>, expected: &str) -> (r: Option<String>)
    ensures
        match r {
            Some(text) => text@ == expected@ && (candidate matches Ok(given) && given@
                == expected@),
            None => !(candidate matches Ok(given) && given@ == expected@),
        },
{
    match candidate {
        Ok(given) => {
            if text_eq(given.as_str(), expected) {
                Some(given)
            } else {
                None
            }
        },
        Err(_) => None,
    }
}

/// Builds the address of `endpoint` for the office `location_id` with the
/// `url` crate, and hands it out if it is the documented one.
///
/// The address is refused, as a configuration error, exactly when the `url`
/// crate does not arrive at [`endpoint_text`]. For the booking page the
/// crate is handed the id as an encoded segment, which it leaves as it is
/// unless the id is `.` or `..`: those it reads as steps in the path, so no
/// address can carry them as a segment.
pub fn build_endpoint(endpoint: DmvEndpoints, location_id: &str) -> (r: Result<
    String,
    SchedulerError,
>)
    ensures
        match r {
            Ok(text) => endpoint_resolves(endpoint, location_id@) && text@ == endpoint_text(
                endpoint,
                location_id@,
            ),
            Err(e) => !endpoint_resolves(endpoint, location_id@) && e
                == SchedulerError::ConfigError,
        },
{
    let stem_expected = stem(endpoint);
    let full_expected = documented_endpoint(endpoint, location_id);
    match endpoint {
        DmvEndpoints::GetNextAvailableDate => {
            let joined = join_url(base_url(), "CustomerCreateAppointments/GetNextAvailableDate");
            let stem_given = match confirm(joined, stem_expected.as_str()) {
                Some(text) => text,
                None => {
                    return Err(SchedulerError::ConfigError);
                },
            };
            proof {
                reveal_strlit("https://telegov.njportal.com/njmvc/");
                reveal_strlit("CustomerCreateAppointments/GetNextAvailableDate");
                reveal_strlit("?appointmentTypeId=15");
            }
            let typed_expected = stem(endpoint).concat("?appointmentTypeId=15");
            let typed = append_query_pair(stem_given.as_str(), "appointmentTypeId", "15");
            let typed_given = match confirm(typed, typed_expected.as_str()) {
                Some(text) => text,
                None => {
                    return Err(SchedulerError::ConfigError);
                },
            };
            let full = append_query_pair(typed_given.as_str(), "locationId", location_id);
            match confirm(full, full_expected.as_str()) {
                Some(text) => Ok(text),
                None => Err(SchedulerError::ConfigError),
            }
        },
        DmvEndpoints::AppointmentWizard => {
            let joined = join_url(base_url(), "AppointmentWizard/15/");
            let stem_given = match confirm(joined, stem_expected.as_str()) {
                Some(text) => text,
                None => {
                    return Err(SchedulerError::ConfigError);
                },
            };
            let mut segment = String::new();
            push_segment_encoded(&mut segment, location_id);
            assert(segment@ =~= segment_encoded(encode_utf8(location_id@)));
            let full = join_url(stem_given.as_str(), segment.as_str());
            match confirm(full, full_expected.as_str()) {
                Some(text) => Ok(text),
                None => Err(SchedulerError::ConfigError),
            }
        },
    }
}

/// The query of an address: what stands behind its first `?`, up to a
/// `#` if there is one. An address without `?`, or with a `#` before it,
/// has no query.
pub open spec fn query_text(url: Seq<char>) -> Option<Seq<char>> {
    let mark = find(url, '?');
    let hash = find(url, '#');
    if mark < hash {
        Some(url.subrange(mark + 1, hash))
    } else {
        None
    }
}

/// An address up to, and without, the `?` or `#` that ends its path.
pub open spec fn up_to_query(url: Seq<char>) -> Seq<char> {
    let mark = find(url, '?');
    let hash = find(url, '#');
    if mark < hash {
        url.take(mark)
    } else {
        url.take(hash)
    }
}

/// The name and the value of one parameter of a query: what stands before
/// its first `=`, and what stands behind it.
pub open spec fn name_and_value(parameter: Seq<char>) -> (Seq<char>, Seq<char>) {
    let sign = find(parameter, '=');
    if sign < parameter.len() {
        (parameter.take(sign), parameter.skip(sign + 1))
    } else {
        (parameter, Seq::<char>::empty())
    }
}

/// The parameters of an address: the pieces of its query between `&`, each
/// as a name and a value, still encoded. An address without a query has
/// none.
pub open spec fn query_parameters(url: Seq<char>) -> Seq<(Seq<char>, Seq<char>)> {
    match query_text(url) {
        Some(query) => Seq::new(
            split(query, '&').len(),
            |i: int| name_and_value(split(query, '&')[i]),
        ),
        None => Seq::<(Seq<char>, Seq<char>)>::empty(),
    }
}

/// Whether `text` ends with `tail`.
pub open spec fn ends_with(text: Seq<char>, tail: Seq<char>) -> bool {
    tail.len() <= text.len() && text.skip(text.len() - tail.len()) == tail
}

/// The query address of an office has exactly two parameters, the
/// appointment type `15` and the id of the office, and no others, whatever
/// the id holds. The id stands there form-encoded, and decoding it gives
/// the bytes of the id back. The address has no fragment.
pub proof fn lemma_query_names_type_and_office(location_id: Seq<char>)
    ensures
        up_to_query(endpoint_text(DmvEndpoints::GetNextAvailableDate, location_id)) == stem_text(
            DmvEndpoints::GetNextAvailableDate,
        ),
        free_of(endpoint_text(DmvEndpoints::GetNextAvailableDate, location_id), '#'),
        query_parameters(endpoint_text(DmvEndpoints::GetNextAvailableDate, location_id)) == seq![
            ("appointmentTypeId"@, "15"@),
            ("locationId"@, form_encoded(encode_utf8(location_id))),
        ],
        form_decoded(form_encoded(encode_utf8(location_id))) == encode_utf8(location_id),
{
    reveal_strlit("https://telegov.njportal.com/njmvc/");
    reveal_strlit("CustomerCreateAppointments/GetNextAvailableDate");
    reveal_strlit("?appointmentTypeId=15");
    reveal_strlit("&locationId=");
    reveal_strlit("appointmentTypeId");
    reveal_strlit("locationId");
    reveal_strlit("15");
    let office = form_encoded(encode_utf8(location_id));
    lemma_form_encoded_chars(encode_utf8(location_id));
    lemma_form_round_trip(encode_utf8(location_id));
    let url = endpoint_text(DmvEndpoints::GetNextAvailableDate, location_id);
    let front = stem_text(DmvEndpoints::GetNextAvailableDate);
    let first = "appointmentTypeId"@ + seq!['='] + "15"@;
    let second = "locationId"@ + seq!['='] + office;
    let query = first.push('&') + second;
    assert("?appointmentTypeId=15"@ =~= seq!['?'] + first);
    assert("&locationId="@ =~= seq!['&'] + "locationId"@ + seq!['=']);
    assert(url =~= front + (seq!['?'] + query));
    assert(free_of(front, '?'));
    assert(free_of(front, '#'));
    assert(free_of(first, '&') && free_of(first, '#'));
    assert(free_of(second, '&') && free_of(second, '#'));
    assert(free_of(url, '#'));
    lemma_find_behind(front, seq!['?'] + query, '?');
    assert(find(seq!['?'] + query, '?') == 0);
    lemma_find(url, '#');
    assert(find(url, '?') == front.len());
    assert(find(url, '#') == url.len());
    assert(url.subrange(front.len() as int + 1, url.len() as int) =~= query);
    assert(url.take(front.len() as int) =~= front);
    assert(query_text(url) == Some(query));
    lemma_split_around(first, second, '&');
    lemma_split_whole(first, '&');
    lemma_split_whole(second, '&');
    assert(split(query, '&') =~= seq![first, second]);
    assert(name_and_value(first) == ("appointmentTypeId"@, "15"@)) by {
        assert(free_of("appointmentTypeId"@, '='));
        assert(first =~= "appointmentTypeId"@ + (seq!['='] + "15"@));
        lemma_find_behind("appointmentTypeId"@, seq!['='] + "15"@, '=');
        assert(find(seq!['='] + "15"@, '=') == 0);
        assert(first.take("appointmentTypeId"@.len() as int) =~= "appointmentTypeId"@);
        assert(first.skip("appointmentTypeId"@.len() as int + 1) =~= "15"@);
    }
    assert(name_and_value(second) == ("locationId"@, office)) by {
        assert(free_of("locationId"@, '='));
        assert(second =~= "locationId"@ + (seq!['='] + office));
        lemma_find_behind("locationId"@, seq!['='] + office, '=');
        assert(find(seq!['='] + office, '=') == 0);
        assert(second.take("locationId"@.len() as int) =~= "locationId"@);
        assert(second.skip("locationId"@.len() as int + 1) =~= office);
    }
    assert(query_parameters(url) =~= seq![
        ("appointmentTypeId"@, "15"@),
        ("locationId"@, office),
    ]);
}

/// The booking address of an office names the office in its path and
/// nowhere else, whatever the id holds: the address has no query and no
/// fragment, it ends with `/15/` and the id as one encoded segment, and
/// decoding that segment gives the bytes of the id back.
pub proof fn lemma_booking_names_office_in_path(location_id: Seq<char>)
    ensures
        query_text(endpoint_text(DmvEndpoints::AppointmentWizard, location_id)) is None,
        query_parameters(endpoint_text(DmvEndpoints::AppointmentWizard, location_id)).len() == 0,
        free_of(endpoint_text(DmvEndpoints::AppointmentWizard, location_id), '?'),
        free_of(endpoint_text(DmvEndpoints::AppointmentWizard, location_id), '#'),
        up_to_query(endpoint_text(DmvEndpoints::AppointmentWizard, location_id)) == endpoint_text(
            DmvEndpoints::AppointmentWizard,
            location_id,
        ),
        ends_with(
            endpoint_text(DmvEndpoints::AppointmentWizard, location_id),
            "/15/"@ + segment_encoded(encode_utf8(location_id)),
        ),
        free_of(segment_encoded(encode_utf8(location_id)), '/'),
        percent_decoded(segment_encoded(encode_utf8(location_id))) == encode_utf8(location_id),
{
    reveal_strlit("https://telegov.njportal.com/njmvc/");
    reveal_strlit("AppointmentWizard/15/");
    reveal_strlit("/15/");
    let office = segment_encoded(encode_utf8(location_id));
    lemma_segment_encoded_chars(encode_utf8(location_id));
    lemma_segment_round_trip(encode_utf8(location_id));
    let url = endpoint_text(DmvEndpoints::AppointmentWizard, location_id);
    let front = stem_text(DmvEndpoints::AppointmentWizard);
    assert(free_of(front, '?') && free_of(front, '#'));
    assert(free_of(url, '?'));
    assert(free_of(url, '#'));
    lemma_find(url, '?');
    lemma_find(url, '#');
    assert(url.take(url.len() as int) =~= url);
    let tail = "/15/"@ + office;
    assert(url.skip(url.len() - tail.len()) =~= tail);
}

} // verus!
