//! Place search and elevation lookup: what to ask for, when, and what the answers mean.
//!
//! `C` stands for a coordinate or an elevation.

use vstd::prelude::*;
use vstd::string::*;
use crate::text;

verus! {

/// The least time between two requests to the place search, in nanoseconds: five seconds.
pub const GEOCODING_THROTTLE_NS: u64 = 5_000_000_000;

/// Whether a byte stands for itself in a query: letters, digits and `-`, `_`, `.`, `~`.
pub open spec fn is_unreserved(b: u8) -> bool {
    ||| '0' as u8 <= b <= '9' as u8
    ||| 'A' as u8 <= b <= 'Z' as u8
    ||| 'a' as u8 <= b <= 'z' as u8
    ||| b == '-' as u8 || b == '_' as u8 || b == '.' as u8 || b == '~' as u8
}

/// The upper-case hexadecimal digit of a value below sixteen.
pub open spec fn hex_digit(value: int) -> char {
    if value < 10 {
        ('0' as int + value) as char
    } else {
        ('A' as int + value - 10) as char
    }
}

/// Bytes as they stand in a query: each unreserved byte as it is, each other byte as a percent
/// sign and two hexadecimal digits.
pub open spec fn percent_text(bytes: Seq<u8>) -> Seq<char>
    decreases bytes.len(),
{
    if bytes.len() == 0 {
        Seq::empty()
    } else {
        let b = bytes.last();
        percent_text(bytes.drop_last()) + if is_unreserved(b) {
            seq![b as char]
        } else {
            seq!['%', hex_digit(b as int / 16), hex_digit(b as int % 16)]
        }
    }
}

/// `urlencoding::encode` percent-encodes the UTF-8 bytes of a text, every byte except letters,
/// digits and `-`, `_`, `.`, `~`, with upper-case hexadecimal digits.
#[verifier::external_body]
fn percent_encode(s: &str) -> (encoded: String)
    ensures
        encoded@ == percent_text(vstd::utf8::encode_utf8(s@)),
{
    urlencoding::encode(s).into_owned()
}

/// Whether `c` is white space.
pub open spec fn is_white(c: char) -> bool {
    let n = c as u32;
    ||| 0x9 <= n <= 0xd
    ||| n == 0x20 || n == 0x85 || n == 0xa0 || n == 0x1680
    ||| 0x2000 <= n <= 0x200a
    ||| n == 0x2028 || n == 0x2029 || n == 0x202f || n == 0x205f || n == 0x3000
}

/// Whether a text holds nothing but white space.
pub open spec fn is_blank(s: Seq<char>) -> bool {
    forall|i: int| 0 <= i < s.len() ==> is_white(#[trigger] s[i])
}

/// Whether `text` holds nothing but white space.
fn blank(text: &str) -> (yes: bool)
    ensures
        yes == is_blank(text@),
{
    let chars = text::chars_of(text);
    let mut i: usize = 0;
    while i < chars.len()
        invariant
            i <= chars@.len(),
            chars@ == text@,
            forall|j: int| 0 <= j < i ==> is_white(#[trigger] chars@[j]),
        decreases chars@.len() - i,
    {
        let n: u32 = chars[i] as u32;
        let white = (0x9 <= n && n <= 0xd) || n == 0x20 || n == 0x85 || n == 0xa0 || n == 0x1680
            || (0x2000 <= n && n <= 0x200a) || n == 0x2028 || n == 0x2029 || n == 0x202f || n
            == 0x205f || n == 0x3000;
        if !white {
            assert(!is_white(text@[i as int]));
            return false;
        }
        i = i + 1;
    }
    true
}

/// A place that the search found.
pub struct GeocodingResult<C> {
    pub display_name: String,
    pub lat: C,
    pub lon: C,
}

/// The state of the place search.
pub struct GeocodingState<C> {
    pub search_text: String,
    pub results: Vec<GeocodingResult<C>>,
    pub is_loading: bool,
    /// When the last request was made, in nanoseconds.
    pub last_request_time: Option<u64>,
    pub error: Option<String>,
    /// The request under way looks up the name of a position.
    pub pending_reverse: bool,
}

/// The address that searches for a text.
pub open spec fn search_address(query: Seq<char>) -> Seq<char> {
    "https://nominatim.openstreetmap.org/search?q="@ + percent_text(
        vstd::utf8::encode_utf8(query),
    ) + "&format=json&limit=5"@
}

/// The address that looks up the name of a position, given in decimal.
pub open spec fn reverse_address(lat: Seq<char>, lon: Seq<char>) -> Seq<char> {
    "https://nominatim.openstreetmap.org/reverse?lat="@ + lat + "&lon="@ + lon
        + "&format=json&zoom=18"@
}

/// Writes the address that searches for `query`.
pub fn search_url(query: &str) -> (url: String)
    ensures
        url@ == search_address(query@),
{
    let mut url = "https://nominatim.openstreetmap.org/search?q=".to_owned();
    url.append(percent_encode(query).as_str());
    url.append("&format=json&limit=5");
    url
}

/// Writes the address that looks up the name of a position, given in decimal.
pub fn reverse_url(lat: &str, lon: &str) -> (url: String)
    ensures
        url@ == reverse_address(lat@, lon@),
{
    let mut url = "https://nominatim.openstreetmap.org/reverse?lat=".to_owned();
    url.append(lat);
    url.append("&lon=");
    url.append(lon);
    url.append("&format=json&zoom=18");
    url
}

/// Whether the last request is long enough ago for another.
pub open spec fn may_request(last: Option<u64>, now: u64) -> bool {
    last is None || now - last->0 >= GEOCODING_THROTTLE_NS
}

impl<C> GeocodingState<C> {
    /// No search yet.
    pub fn new() -> (state: Self)
        ensures
            state.search_text@.len() == 0,
            state.results@.len() == 0,
            !state.is_loading,
            state.last_request_time is None,
            state.error is None,
            !state.pending_reverse,
    {
        GeocodingState {
            search_text: String::new(),
            results: Vec::new(),
            is_loading: false,
            last_request_time: None,
            error: None,
            pending_reverse: false,
        }
    }

    /// Whether the last request is long enough ago for another.
    fn can_request(&self, now: u64) -> (yes: bool)
        ensures
            yes == may_request(self.last_request_time, now),
    {
        match self.last_request_time {
            None => true,
            Some(t) => now >= t && now - t >= GEOCODING_THROTTLE_NS,
        }
    }

    /// Starts a search for the search text, unless one is under way, the last is too recent or
    /// the text is blank. Hands back the address to fetch.
    pub fn start_request(&mut self, now: u64) -> (url: Option<String>)
        ensures
            url is Some <==> may_request(old(self).last_request_time, now) && !old(self).is_loading
                && !is_blank(old(self).search_text@),
            url matches Some(u) ==> {
                &&& u@ == search_address(old(self).search_text@)
                &&& final(self).is_loading
                &&& final(self).error is None
                &&& !final(self).pending_reverse
                &&& final(self).last_request_time == Some(now)
                &&& final(self).search_text == old(self).search_text
                &&& final(self).results == old(self).results
            },
            url is None ==> *final(self) == *old(self),
    {
        if !self.can_request(now) || self.is_loading || blank(self.search_text.as_str()) {
            return None;
        }
        self.is_loading = true;
        self.error = None;
        self.pending_reverse = false;
        self.last_request_time = Some(now);
        Some(search_url(self.search_text.as_str()))
    }

    /// Starts a look-up of the name of a position, unless a request is under way or the last is
    /// too recent. Hands back the address to fetch.
    pub fn start_reverse_request(&mut self, lat: &str, lon: &str, now: u64) -> (url: Option<String>)
        ensures
            url is Some <==> may_request(old(self).last_request_time, now)
                && !old(self).is_loading,
            url matches Some(u) ==> {
                &&& u@ == reverse_address(lat@, lon@)
                &&& final(self).is_loading
                &&& final(self).error is None
                &&& final(self).pending_reverse
                &&& final(self).last_request_time == Some(now)
                &&& final(self).search_text == old(self).search_text
                &&& final(self).results == old(self).results
            },
            url is None ==> *final(self) == *old(self),
    {
        if !self.can_request(now) || self.is_loading {
            return None;
        }
        self.is_loading = true;
        self.error = None;
        self.pending_reverse = true;
        self.last_request_time = Some(now);
        Some(reverse_url(lat, lon))
    }

    /// Takes in the answer to the request under way.
    ///
    /// The name of a position that was looked up becomes the search text.
    pub fn finish_request(&mut self, answer: Result<Vec<GeocodingResult<C>>, String>)
        ensures
            !final(self).is_loading,
            !final(self).pending_reverse,
            final(self).last_request_time == old(self).last_request_time,
            answer matches Ok(places) ==> {
                &&& final(self).results == places
                &&& final(self).error is None
                &&& final(self).search_text@ == if old(self).pending_reverse && places@.len() > 0 {
                    places@[0].display_name@
                } else {
                    old(self).search_text@
                }
            },
            answer matches Err(e) ==> {
                &&& final(self).results@.len() == 0
                &&& final(self).error == Some(e)
                &&& final(self).search_text == old(self).search_text
            },
    {
        let reverse = self.pending_reverse;
        self.is_loading = false;
        self.pending_reverse = false;
        match answer {
            Ok(places) => {
                if reverse && places.len() > 0 {
                    self.search_text = places[0].display_name.clone();
                }
                self.results = places;
                self.error = None;
            },
            Err(e) => {
                self.results.clear();
                self.error = Some(e);
            },
        }
    }
}

/// Requests are spaced: after one, none starts until the throttle has passed.
pub proof fn lemma_requests_are_spaced(first: u64, second: u64)
    requires
        may_request(Some(first), second),
    ensures
        second >= first + GEOCODING_THROTTLE_NS,
{
}

/// What came of a request, up to its decoded answer.
pub enum Reply<T> {
    /// The request could not be sent.
    Unsent(String),
    /// The server refused, with this status.
    Refused(String),
    /// The answer could not be read.
    Garbled(String),
    Answer(T),
}

/// Whether an HTTP status code means success.
pub fn is_success(code: u16) -> (yes: bool)
    ensures
        yes == (200 <= code < 300),
{
    200 <= code && code < 300
}

/// A place as an answer gives it: coordinates that were not numbers are missing.
pub struct FoundPlace<C> {
    pub display_name: String,
    pub lat: Option<C>,
    pub lon: Option<C>,
}

/// Whether a place has both coordinates.
pub open spec fn is_located<C>(place: FoundPlace<C>) -> bool {
    place.lat is Some && place.lon is Some
}

/// The places with both coordinates, in order.
pub open spec fn located<C>(places: Seq<FoundPlace<C>>) -> Seq<FoundPlace<C>>
    decreases places.len(),
{
    if places.len() == 0 {
        places
    } else if is_located(places.last()) {
        located(places.drop_last()).push(places.last())
    } else {
        located(places.drop_last())
    }
}

/// Whether `result` is `place`.
pub open spec fn is_result<C>(result: GeocodingResult<C>, place: FoundPlace<C>) -> bool {
    &&& result.display_name@ == place.display_name@
    &&& place.lat == Some(result.lat)
    &&& place.lon == Some(result.lon)
}

/// Whether `results` are `places`, one for one.
pub open spec fn are_results<C>(
    results: Seq<GeocodingResult<C>>,
    places: Seq<FoundPlace<C>>,
) -> bool {
    &&& results.len() == places.len()
    &&& forall|i: int| 0 <= i < results.len() ==> is_result(#[trigger] results[i], places[i])
}

/// What is said of a reply without an answer: the words for what went wrong, then the details.
pub open spec fn reply_error<T>(
    reply: Reply<T>,
    unsent: Seq<char>,
    refused: Seq<char>,
    garbled: Seq<char>,
) -> Seq<char> {
    match reply {
        Reply::Unsent(e) => unsent + e@,
        Reply::Refused(status) => refused + status@,
        Reply::Garbled(e) => garbled + e@,
        Reply::Answer(_) => Seq::empty(),
    }
}

/// What is said of a reply to a place search without an answer.
pub open spec fn search_error<T>(reply: Reply<T>) -> Seq<char> {
    reply_error(reply, "Request failed: "@, "HTTP "@, "Failed to parse response: "@)
}

/// What is said of a reply to an elevation look-up without an answer.
pub open spec fn elevation_error<T>(reply: Reply<T>) -> Seq<char> {
    reply_error(
        reply,
        "Elevation request failed: "@,
        "Elevation HTTP "@,
        "Failed to parse elevation response: "@,
    )
}

/// Writes `detail` behind `said`.
fn say(said: &str, detail: &String) -> (message: String)
    ensures
        message@ == said@ + detail@,
{
    let mut message = said.to_owned();
    message.append(detail.as_str());
    message
}

/// The places that a search found; those without two coordinates are left out.
pub fn search_outcome<C: Copy>(reply: Reply<Vec<FoundPlace<C>>>) -> (outcome: Result<
    Vec<GeocodingResult<C>>,
    String,
>)
    ensures
        outcome is Ok <==> reply is Answer,
        outcome matches Ok(results) ==> are_results(results@, located(reply->Answer_0@)),
        outcome matches Err(e) ==> e@ == search_error(reply),
{
    match reply {
        Reply::Unsent(e) => Err(say("Request failed: ", &e)),
        Reply::Refused(status) => Err(say("HTTP ", &status)),
        Reply::Garbled(e) => Err(say("Failed to parse response: ", &e)),
        Reply::Answer(places) => {
            let mut results: Vec<GeocodingResult<C>> = Vec::new();
            let mut i: usize = 0;
            while i < places.len()
                invariant
                    i <= places@.len(),
                    are_results(results@, located(places@.take(i as int))),
                decreases places@.len() - i,
            {
                let place = &places[i];
                assert(places@.take(i + 1).drop_last() =~= places@.take(i as int));
                match (place.lat, place.lon) {
                    (Some(lat), Some(lon)) => {
                        results.push(
                            GeocodingResult { display_name: place.display_name.clone(), lat, lon },
                        );
                    },
                    _ => {},
                }
                i = i + 1;
            }
            assert(places@.take(places@.len() as int) =~= places@);
            Ok(results)
        },
    }
}

/// The place at a position, or what is wrong with the answer.
pub fn reverse_outcome<C: Copy>(reply: Reply<FoundPlace<C>>) -> (outcome: Result<
    Vec<GeocodingResult<C>>,
    String,
>)
    ensures
        outcome is Ok <==> reply is Answer && is_located(reply->Answer_0),
        outcome matches Ok(results) ==> are_results(results@, seq![reply->Answer_0]),
        outcome matches Err(e) ==> e@ == match reply {
            Reply::Answer(place) => if place.lat is None {
                "invalid latitude in response"@
            } else {
                "invalid longitude in response"@
            },
            _ => search_error(reply),
        },
{
    match reply {
        Reply::Unsent(e) => Err(say("Request failed: ", &e)),
        Reply::Refused(status) => Err(say("HTTP ", &status)),
        Reply::Garbled(e) => Err(say("Failed to parse response: ", &e)),
        Reply::Answer(place) => {
            let lat = match place.lat {
                Some(lat) => lat,
                None => {
                    return Err("invalid latitude in response".to_owned());
                },
            };
            let lon = match place.lon {
                Some(lon) => lon,
                None => {
                    return Err("invalid longitude in response".to_owned());
                },
            };
            let mut results: Vec<GeocodingResult<C>> = Vec::new();
            results.push(GeocodingResult { display_name: place.display_name, lat, lon });
            Ok(results)
        },
    }
}

/// Writes the address that looks up the elevation of a position, given in decimal.
pub fn elevation_url(lat: &str, lon: &str) -> (url: String)
    ensures
        url@ == "https://api.open-elevation.com/api/v1/lookup?locations="@ + lat@ + ","@ + lon@,
{
    let mut url = "https://api.open-elevation.com/api/v1/lookup?locations=".to_owned();
    url.append(lat);
    url.append(",");
    url.append(lon);
    url
}

/// The first elevation of an answer, or what is wrong with it.
pub fn elevation_outcome<C: Copy>(reply: Reply<Vec<C>>) -> (outcome: Result<C, String>)
    ensures
        outcome is Ok <==> reply is Answer && reply->Answer_0@.len() > 0,
        outcome matches Ok(elevation) ==> elevation == reply->Answer_0@[0],
        outcome matches Err(e) ==> e@ == match reply {
            Reply::Answer(_) => "No elevation data returned"@,
            _ => elevation_error(reply),
        },
{
    match reply {
        Reply::Unsent(e) => Err(say("Elevation request failed: ", &e)),
        Reply::Refused(status) => Err(say("Elevation HTTP ", &status)),
        Reply::Garbled(e) => Err(say("Failed to parse elevation response: ", &e)),
        Reply::Answer(elevations) => {
            if elevations.len() > 0 {
                Ok(elevations[0])
            } else {
                Err("No elevation data returned".to_owned())
            }
        },
    }
}

/// A search starts only while none is under way, at least five seconds after the last one, and for a
/// text that is not blank; otherwise nothing changes.
pub proof fn lemma_searches_are_spaced<C>(
    state: &mut GeocodingState<C>,
    now: u64,
    url: Option<String>,
)
    requires
        call_ensures(GeocodingState::<C>::start_request, (state, now), url),
    ensures
        ({
            let before = *old(state);
            let after = *final(state);
            let blank = forall|i: int|
                0 <= i < before.search_text@.len() ==> is_white(#[trigger] before.search_text@[i]);
            let rested = before.last_request_time is None || now >= before.last_request_time->0
                + 5_000_000_000;
            &&& url is Some <==> !before.is_loading && rested && !blank
            &&& url is Some ==> after.is_loading && after.last_request_time == Some(now)
                && !after.pending_reverse && after.error is None
            &&& url is None ==> after == before
            &&& after.search_text == before.search_text && after.results == before.results
        }),
{
}

/// The same of a look-up of a name, for any position; its answer becomes the search text.
pub proof fn lemma_look_ups_are_spaced<C>(
    state: &mut GeocodingState<C>,
    lat: &str,
    lon: &str,
    now: u64,
    url: Option<String>,
)
    requires
        call_ensures(GeocodingState::<C>::start_reverse_request, (state, lat, lon, now), url),
    ensures
        ({
            let before = *old(state);
            let after = *final(state);
            let rested = before.last_request_time is None || now >= before.last_request_time->0
                + 5_000_000_000;
            &&& url is Some <==> !before.is_loading && rested
            &&& url is Some ==> after.is_loading && after.last_request_time == Some(now)
                && after.pending_reverse && after.error is None
            &&& url is None ==> after == before
            &&& after.search_text == before.search_text && after.results == before.results
        }),
{
}

/// An answer ends the request. The places found replace the last ones, and the first of them gives
/// its name to the search if a name was looked up; a failure leaves no places.
pub proof fn lemma_answers_end_the_request<C>(
    state: &mut GeocodingState<C>,
    answer: Result<Vec<GeocodingResult<C>>, String>,
)
    requires
        call_ensures(GeocodingState::<C>::finish_request, (state, answer), ()),
    ensures
        ({
            let before = *old(state);
            let after = *final(state);
            &&& !after.is_loading && !after.pending_reverse
            &&& after.last_request_time == before.last_request_time
            &&& answer matches Ok(found) ==> {
                &&& after.results@ == found@
                &&& after.error is None
                &&& before.pending_reverse && found@.len() > 0 ==> after.search_text@
                    == found@[0].display_name@
                &&& !before.pending_reverse || found@.len() == 0 ==> after.search_text@
                    == before.search_text@
            }
            &&& answer matches Err(e) ==> {
                &&& after.results@.len() == 0
                &&& after.error == Some(e)
                &&& after.search_text@ == before.search_text@
            }
        }),
{
}

/// A search hands on just the places with two coordinates, with their names and coordinates, each
/// before the ones behind it.
pub proof fn lemma_located_places_are_handed_on<C: Copy>(
    places: Vec<FoundPlace<C>>,
    results: Vec<GeocodingResult<C>>,
    i: int,
)
    requires
        call_ensures(
            search_outcome::<C>,
            (Reply::Answer(places),),
            Ok::<Vec<GeocodingResult<C>>, String>(results),
        ),
    ensures
        0 <= i < places@.len() && places@[i].lat is Some && places@[i].lon is Some ==> exists|j: int|
            0 <= j < results@.len() && is_result(#[trigger] results@[j], places@[i]),
        0 <= i < results@.len() ==> exists|j: int|
            0 <= j < places@.len() && is_result(results@[i], #[trigger] places@[j]),
        results@.len() <= places@.len(),
        (forall|j: int| 0 <= j < places@.len() ==> is_located(#[trigger] places@[j]))
            ==> results@.len() == places@.len() && (0 <= i < places@.len() ==> is_result(
            results@[i],
            places@[i],
        )),
{
    let kept = located(places@);
    lemma_located_is_no_longer(places@);
    if 0 <= i < places@.len() && places@[i].lat is Some && places@[i].lon is Some {
        lemma_located_members(places@, places@[i]);
        let j = kept.index_of(places@[i]);
        assert(is_result(results@[j], kept[j]));
    }
    if 0 <= i < results@.len() {
        assert(kept.contains(kept[i]));
        lemma_located_members(places@, kept[i]);
        let j = places@.index_of(kept[i]);
        assert(is_result(results@[i], places@[j]));
    }
}

proof fn lemma_located_members<C>(places: Seq<FoundPlace<C>>, place: FoundPlace<C>)
    ensures
        located(places).contains(place) <==> places.contains(place) && is_located(place),
    decreases places.len(),
{
    if places.len() > 0 {
        let rest = places.drop_last();
        let last = places.last();
        let kept = located(places);
        let fewer = located(rest);
        lemma_located_members(rest, place);
        if rest.contains(place) {
            assert(places[rest.index_of(place)] == place);
        }
        if place == last {
            assert(places[places.len() - 1] == place);
        }
        if places.contains(place) && place != last {
            assert(rest[places.index_of(place)] == place);
        }
        if is_located(last) {
            if fewer.contains(place) {
                assert(kept[fewer.index_of(place)] == place);
            }
            if place == last {
                assert(kept[fewer.len() as int] == place);
            }
            if kept.contains(place) && place != last {
                assert(fewer[kept.index_of(place)] == place);
            }
        }
    }
}

proof fn lemma_located_is_no_longer<C>(places: Seq<FoundPlace<C>>)
    ensures
        located(places).len() <= places.len(),
        (forall|j: int| 0 <= j < places.len() ==> is_located(#[trigger] places[j])) ==> located(
            places,
        ) == places,
    decreases places.len(),
{
    if places.len() > 0 {
        let rest = places.drop_last();
        lemma_located_is_no_longer(rest);
        if forall|j: int| 0 <= j < places.len() ==> is_located(#[trigger] places[j]) {
            assert(is_located(places[places.len() - 1]));
            assert forall|j: int| 0 <= j < rest.len() implies is_located(#[trigger] rest[j]) by {
                assert(rest[j] == places[j]);
            }
            assert(located(places) =~= places);
        }
    }
}

/// A position is asked for by its latitude, then its longitude, each where its name says.
pub proof fn lemma_positions_are_asked_for_by_name(
    lat: &str,
    lon: &str,
    name: String,
    height: String,
)
    requires
        call_ensures(reverse_url, (lat, lon), name),
        call_ensures(elevation_url, (lat, lon), height),
    ensures
        name@ == "https://nominatim.openstreetmap.org/reverse?lat="@ + lat@ + "&lon="@ + lon@
            + "&format=json&zoom=18"@,
        height@ == "https://api.open-elevation.com/api/v1/lookup?locations="@ + lat@ + ","@ + lon@,
{
}

/// An answer gives the elevation that it names first; anything else gives none, and says why.
pub proof fn lemma_the_first_elevation_counts<C: Copy>(
    reply: Reply<Vec<C>>,
    outcome: Result<C, String>,
)
    requires
        call_ensures(elevation_outcome::<C>, (reply,), outcome),
    ensures
        reply matches Reply::Answer(list) ==> {
            &&& list@.len() > 0 ==> outcome == Ok::<C, String>(list@[0])
            &&& list@.len() == 0 ==> outcome is Err && outcome->Err_0@
                == "No elevation data returned"@
        },
        reply matches Reply::Unsent(e) ==> outcome is Err && outcome->Err_0@
            == "Elevation request failed: "@ + e@,
        reply matches Reply::Refused(e) ==> outcome is Err && outcome->Err_0@ == "Elevation HTTP "@
            + e@,
        reply matches Reply::Garbled(e) ==> outcome is Err && outcome->Err_0@
            == "Failed to parse elevation response: "@ + e@,
{
}

/// Codes from 200 up to 299 mean success.
pub proof fn lemma_success_codes(code: u16, yes: bool)
    requires
        call_ensures(is_success, (code,), yes),
    ensures
        yes <==> code / 100 == 2,
{
}

/// Letters, digits and four signs stand for themselves in a query; every other byte takes three
/// characters, of which the first is a percent sign.
pub proof fn lemma_bytes_in_a_query(bytes: Seq<u8>)
    ensures
        bytes.len() <= percent_text(bytes).len() <= 3 * bytes.len(),
        (forall|i: int| 0 <= i < bytes.len() ==> is_unreserved(#[trigger] bytes[i])) ==> percent_text(
            bytes,
        ) == bytes.map_values(|b: u8| b as char),
    decreases bytes.len(),
{
    if bytes.len() > 0 {
        let rest = bytes.drop_last();
        lemma_bytes_in_a_query(rest);
        if forall|i: int| 0 <= i < bytes.len() ==> is_unreserved(#[trigger] bytes[i]) {
            assert(is_unreserved(bytes[bytes.len() - 1]));
            assert forall|i: int| 0 <= i < rest.len() implies is_unreserved(#[trigger] rest[i]) by {
                assert(rest[i] == bytes[i]);
            }
            assert(percent_text(bytes) =~= bytes.map_values(|b: u8| b as char));
        }
    } else {
        assert(percent_text(bytes) =~= bytes.map_values(|b: u8| b as char));
    }
}

/// The place at a position is handed on with its name and its coordinates; without a coordinate, or
/// without an answer, it is said what is missing.
pub proof fn lemma_the_place_at_a_position<C: Copy>(
    reply: Reply<FoundPlace<C>>,
    outcome: Result<Vec<GeocodingResult<C>>, String>,
)
    requires
        call_ensures(reverse_outcome::<C>, (reply,), outcome),
    ensures
        reply matches Reply::Answer(place) ==> {
            &&& place.lat is Some && place.lon is Some ==> {
                &&& outcome is Ok
                &&& outcome->Ok_0@.len() == 1
                &&& outcome->Ok_0@[0].display_name@ == place.display_name@
                &&& Some(outcome->Ok_0@[0].lat) == place.lat
                &&& Some(outcome->Ok_0@[0].lon) == place.lon
            }
            &&& place.lat is None ==> outcome is Err && outcome->Err_0@
                == "invalid latitude in response"@
            &&& place.lat is Some && place.lon is None ==> outcome is Err && outcome->Err_0@
                == "invalid longitude in response"@
        },
        reply matches Reply::Unsent(e) ==> outcome is Err && outcome->Err_0@ == "Request failed: "@
            + e@,
        reply matches Reply::Refused(e) ==> outcome is Err && outcome->Err_0@ == "HTTP "@ + e@,
        reply matches Reply::Garbled(e) ==> outcome is Err && outcome->Err_0@
            == "Failed to parse response: "@ + e@,
{
    if outcome is Ok {
        assert(is_result(outcome->Ok_0@[0], seq![reply->Answer_0][0]));
    }
}

/// Of the characters that a keyboard types just the space, the tab and the line breaks are blank, so
/// that a search text with any other of them is looked for; the wider blanks of other scripts count
/// as blank too.
pub proof fn lemma_typed_texts_are_looked_for<C>(
    state: &mut GeocodingState<C>,
    now: u64,
    url: Option<String>,
    i: int,
)
    requires
        call_ensures(GeocodingState::<C>::start_request, (state, now), url),
        !old(state).is_loading,
        old(state).last_request_time is None,
        0 <= i < old(state).search_text@.len(),
    ensures
        ({
            let text = old(state).search_text@;
            let typed = '!' <= text[i] <= '~';
            &&& typed ==> url is Some
            &&& (forall|j: int|
                0 <= j < text.len() ==> ({
                    let c = #[trigger] text[j];
                    ||| c == ' '
                    ||| '\t' <= c <= '\r'
                    ||| c == '\u{85}'
                    ||| c == '\u{a0}'
                    ||| c == '\u{1680}'
                    ||| '\u{2000}' <= c <= '\u{200a}'
                    ||| c == '\u{2028}'
                    ||| c == '\u{2029}'
                    ||| c == '\u{202f}'
                    ||| c == '\u{205f}'
                    ||| c == '\u{3000}'
                })) ==> url is None
        }),
{
    let text = old(state).search_text@;
    if '!' <= text[i] <= '~' {
        assert(!is_white(text[i]));
    }
}

} // verus!
