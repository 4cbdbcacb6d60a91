//! The parallel-world mission's decision steps: decoding a city to its
//! landmark from the travel notes, choosing the flight endpoint for a
//! landmark, and pulling a flight code out of a response body.
//!
//! The surrounding calls that fetch the favourite city and the flight
//! number are plain HTTP and live outside the library; everything decided
//! between them is verified here.

use vstd::prelude::*;

use crate::text::{chars_to_string, spec_trim, string_to_chars, str_eq, subvec_chars, trim_chars};

verus! {

/// The travel notes: current city to landmark.  The home cities are
/// checked first, then the international ones; an unknown city maps to
/// the fixed unknown marker.
pub open spec fn spec_decode_city(s: Seq<char>) -> Seq<char> {
    if s == "Delhi"@ {
        "Gateway of India"@
    } else if s == "Mumbai"@ {
        "India Gate"@
    } else if s == "Chennai"@ {
        "Charminar"@
    } else if s == "Hyderabad"@ {
        "Taj Mahal"@
    } else if s == "Ahmedabad"@ {
        "Howrah Bridge"@
    } else if s == "Mysuru"@ {
        "Golconda Fort"@
    } else if s == "Kochi"@ {
        "Qutub Minar"@
    } else if s == "Pune"@ {
        "Meenakshi Temple"@
    } else if s == "Nagpur"@ {
        "Lotus Temple"@
    } else if s == "Chandigarh"@ {
        "Mysore Palace"@
    } else if s == "Kerala"@ {
        "Rock Garden"@
    } else if s == "Bhopal"@ {
        "Victoria Memorial"@
    } else if s == "Varanasi"@ {
        "Vidhana Soudha"@
    } else if s == "Jaisalmer"@ {
        "Sun Temple"@
    } else if s == "New York"@ {
        "Eiffel Tower"@
    } else if s == "London"@ {
        "Statue of Liberty"@
    } else if s == "Tokyo"@ {
        "Big Ben"@
    } else if s == "Beijing"@ {
        "Colosseum"@
    } else if s == "Bangkok"@ {
        "Christ the Redeemer"@
    } else if s == "Toronto"@ {
        "Burj Khalifa"@
    } else if s == "Dubai"@ {
        "CN Tower"@
    } else if s == "Amsterdam"@ {
        "Petronas Towers"@
    } else if s == "Cairo"@ {
        "Leaning Tower of Pisa"@
    } else if s == "San Francisco"@ {
        "Mount Fuji"@
    } else if s == "Berlin"@ {
        "Niagara Falls"@
    } else if s == "Barcelona"@ {
        "Louvre Museum"@
    } else if s == "Moscow"@ {
        "Stonehenge"@
    } else if s == "Seoul"@ {
        "Sagrada Familia"@
    } else if s == "Cape Town"@ {
        "Acropolis"@
    } else if s == "Istanbul"@ {
        "Big Ben"@
    } else if s == "Riyadh"@ {
        "Machu Picchu"@
    } else if s == "Paris"@ {
        "Taj Mahal"@
    } else if s == "Dubai Airport"@ {
        "Moai Statues"@
    } else if s == "Singapore"@ {
        "Christchurch Cathedral"@
    } else if s == "Jakarta"@ {
        "The Shard"@
    } else if s == "Vienna"@ {
        "Blue Mosque"@
    } else if s == "Kathmandu"@ {
        "Neuschwanstein Castle"@
    } else if s == "Los Angeles"@ {
        "Buckingham Palace"@
    } else {
        "Unknown Landmark"@
    }
}

/// Decodes a current city to its landmark, exactly per
/// [`spec_decode_city`].
pub fn decode_city_landmark(city: &str) -> (r: String)
    ensures
        r@ == spec_decode_city(city@),
{
    let name: &str = if str_eq(city, "Delhi") {
        "Gateway of India"
    } else if str_eq(city, "Mumbai") {
        "India Gate"
    } else if str_eq(city, "Chennai") {
        "Charminar"
    } else if str_eq(city, "Hyderabad") {
        "Taj Mahal"
    } else if str_eq(city, "Ahmedabad") {
        "Howrah Bridge"
    } else if str_eq(city, "Mysuru") {
        "Golconda Fort"
    } else if str_eq(city, "Kochi") {
        "Qutub Minar"
    } else if str_eq(city, "Pune") {
        "Meenakshi Temple"
    } else if str_eq(city, "Nagpur") {
        "Lotus Temple"
    } else if str_eq(city, "Chandigarh") {
        "Mysore Palace"
    } else if str_eq(city, "Kerala") {
        "Rock Garden"
    } else if str_eq(city, "Bhopal") {
        "Victoria Memorial"
    } else if str_eq(city, "Varanasi") {
        "Vidhana Soudha"
    } else if str_eq(city, "Jaisalmer") {
        "Sun Temple"
    } else if str_eq(city, "New York") {
        "Eiffel Tower"
    } else if str_eq(city, "London") {
        "Statue of Liberty"
    } else if str_eq(city, "Tokyo") {
        "Big Ben"
    } else if str_eq(city, "Beijing") {
        "Colosseum"
    } else if str_eq(city, "Bangkok") {
        "Christ the Redeemer"
    } else if str_eq(city, "Toronto") {
        "Burj Khalifa"
    } else if str_eq(city, "Dubai") {
        "CN Tower"
    } else if str_eq(city, "Amsterdam") {
        "Petronas Towers"
    } else if str_eq(city, "Cairo") {
        "Leaning Tower of Pisa"
    } else if str_eq(city, "San Francisco") {
        "Mount Fuji"
    } else if str_eq(city, "Berlin") {
        "Niagara Falls"
    } else if str_eq(city, "Barcelona") {
        "Louvre Museum"
    } else if str_eq(city, "Moscow") {
        "Stonehenge"
    } else if str_eq(city, "Seoul") {
        "Sagrada Familia"
    } else if str_eq(city, "Cape Town") {
        "Acropolis"
    } else if str_eq(city, "Istanbul") {
        "Big Ben"
    } else if str_eq(city, "Riyadh") {
        "Machu Picchu"
    } else if str_eq(city, "Paris") {
        "Taj Mahal"
    } else if str_eq(city, "Dubai Airport") {
        "Moai Statues"
    } else if str_eq(city, "Singapore") {
        "Christchurch Cathedral"
    } else if str_eq(city, "Jakarta") {
        "The Shard"
    } else if str_eq(city, "Vienna") {
        "Blue Mosque"
    } else if str_eq(city, "Kathmandu") {
        "Neuschwanstein Castle"
    } else if str_eq(city, "Los Angeles") {
        "Buckingham Palace"
    } else {
        "Unknown Landmark"
    };
    name.to_owned()
}

/// The flight-number endpoint chosen for a landmark.
pub open spec fn spec_flight_endpoint(s: Seq<char>) -> Seq<char> {
    if s == "Gateway of India"@ {
        "https://register.hackrx.in/teams/public/flights/getFirstCityFlightNumber"@
    } else if s == "Taj Mahal"@ {
        "https://register.hackrx.in/teams/public/flights/getSecondCityFlightNumber"@
    } else if s == "Eiffel Tower"@ {
        "https://register.hackrx.in/teams/public/flights/getThirdCityFlightNumber"@
    } else if s == "Big Ben"@ {
        "https://register.hackrx.in/teams/public/flights/getFourthCityFlightNumber"@
    } else {
        "https://register.hackrx.in/teams/public/flights/getFifthCityFlightNumber"@
    }
}

/// Chooses the endpoint to ask for the flight number, exactly per
/// [`spec_flight_endpoint`].
pub fn flight_endpoint(landmark: &str) -> (r: String)
    ensures
        r@ == spec_flight_endpoint(landmark@),
{
    let url: &str = if str_eq(landmark, "Gateway of India") {
        "https://register.hackrx.in/teams/public/flights/getFirstCityFlightNumber"
    } else if str_eq(landmark, "Taj Mahal") {
        "https://register.hackrx.in/teams/public/flights/getSecondCityFlightNumber"
    } else if str_eq(landmark, "Eiffel Tower") {
        "https://register.hackrx.in/teams/public/flights/getThirdCityFlightNumber"
    } else if str_eq(landmark, "Big Ben") {
        "https://register.hackrx.in/teams/public/flights/getFourthCityFlightNumber"
    } else {
        "https://register.hackrx.in/teams/public/flights/getFifthCityFlightNumber"
    };
    url.to_owned()
}

pub open spec fn is_upper(c: char) -> bool {
    65 <= (c as u32) <= 90
}

pub open spec fn is_digit(c: char) -> bool {
    48 <= (c as u32) <= 57
}

pub open spec fn is_upper_or_digit(c: char) -> bool {
    is_upper(c) || is_digit(c)
}

/// The length of the run of capital letters starting at `i`.
pub open spec fn upper_run_len(t: Seq<char>, i: int) -> int
    recommends
        0 <= i <= t.len(),
    decreases t.len() - i,
    when 0 <= i <= t.len()
{
    if i >= t.len() || !is_upper(t[i]) {
        0
    } else {
        1 + upper_run_len(t, i + 1)
    }
}

/// The length of the run of digits starting at `i`.
pub open spec fn digit_run_len(t: Seq<char>, i: int) -> int
    recommends
        0 <= i <= t.len(),
    decreases t.len() - i,
    when 0 <= i <= t.len()
{
    if i >= t.len() || !is_digit(t[i]) {
        0
    } else {
        1 + digit_run_len(t, i + 1)
    }
}

/// The length of the run of capitals or digits starting at `i`.
pub open spec fn upper_digit_run_len(t: Seq<char>, i: int) -> int
    recommends
        0 <= i <= t.len(),
    decreases t.len() - i,
    when 0 <= i <= t.len()
{
    if i >= t.len() || !is_upper_or_digit(t[i]) {
        0
    } else {
        1 + upper_digit_run_len(t, i + 1)
    }
}

/// Where a flight-code token ends if one starts at `i`: one to three
/// capital letters (as many as possible) followed by three or four digits
/// (as many as possible, up to four).
pub open spec fn code_end_at(t: Seq<char>, i: int) -> Option<int> {
    let ur = upper_run_len(t, i);
    if ur >= 3 && digit_run_len(t, i + 3) >= 3 {
        Some(i + 3 + digit_take(t, i + 3))
    } else if ur >= 2 && digit_run_len(t, i + 2) >= 3 {
        Some(i + 2 + digit_take(t, i + 2))
    } else if ur >= 1 && digit_run_len(t, i + 1) >= 3 {
        Some(i + 1 + digit_take(t, i + 1))
    } else {
        None
    }
}

/// How many digits the code consumes from `j`: the whole run, at most
/// four.
pub open spec fn digit_take(t: Seq<char>, j: int) -> int {
    let d = digit_run_len(t, j);
    if d >= 4 {
        4
    } else {
        d
    }
}

/// The first flight-code token of the text: its start and end.
pub open spec fn find_code(t: Seq<char>, i: int) -> Option<(int, int)>
    recommends
        0 <= i <= t.len(),
    decreases t.len() - i,
    when 0 <= i <= t.len()
{
    if i >= t.len() {
        None
    } else {
        match code_end_at(t, i) {
            Some(e) => Some((i, e)),
            None => find_code(t, i + 1),
        }
    }
}

/// Where a quoted code ends if a quote stands at `i`: four to eight
/// capitals or digits (as many as possible), closed by another quote.
/// The bounds of the text between the quotes are returned.
pub open spec fn quoted_try(t: Seq<char>, i: int, l: int) -> Option<(int, int)>
    decreases l,
    when l >= 0
{
    if l < 4 {
        None
    } else if i + 1 + l < t.len() && t[i + 1 + l] == '"' {
        Some((i + 1, i + 1 + l))
    } else {
        quoted_try(t, i, l - 1)
    }
}

pub open spec fn quoted_at(t: Seq<char>, i: int) -> Option<(int, int)> {
    if t[i] != '"' {
        None
    } else {
        let ar = upper_digit_run_len(t, i + 1);
        quoted_try(t, i, if ar >= 8 {
            8int
        } else {
            ar
        })
    }
}

/// The first quoted code of the text.
pub open spec fn find_quoted(t: Seq<char>, i: int) -> Option<(int, int)>
    recommends
        0 <= i <= t.len(),
    decreases t.len() - i,
    when 0 <= i <= t.len()
{
    if i >= t.len() {
        None
    } else {
        match quoted_at(t, i) {
            Some(p) => Some(p),
            None => find_quoted(t, i + 1),
        }
    }
}

/// The flight code read from a response body: the first code-shaped token
/// if any, else the first quoted code, else the whole body trimmed.
pub open spec fn spec_extract_flight_code(t: Seq<char>) -> Seq<char> {
    match find_code(t, 0) {
        Some(p) => t.subrange(p.0, p.1),
        None => match find_quoted(t, 0) {
            Some(p) => t.subrange(p.0, p.1),
            None => spec_trim(t),
        },
    }
}

fn is_upper_exec(c: char) -> (r: bool)
    ensures
        r == is_upper(c),
{
    let u = c as u32;
    65 <= u && u <= 90
}

fn is_digit_exec(c: char) -> (r: bool)
    ensures
        r == is_digit(c),
{
    let u = c as u32;
    48 <= u && u <= 57
}

fn is_upper_digit_exec(c: char) -> (r: bool)
    ensures
        r == is_upper_or_digit(c),
{
    is_upper_exec(c) || is_digit_exec(c)
}

fn upper_run(t: &Vec<char>, i: usize) -> (r: usize)
    requires
        i <= t@.len(),
    ensures
        r as int == upper_run_len(t@, i as int),
        i + r <= t@.len(),
{
    let mut j: usize = i;
    while j < t.len() && is_upper_exec(t[j])
        invariant
            i <= j <= t@.len(),
            upper_run_len(t@, i as int) == (j - i) + upper_run_len(t@, j as int),
        decreases t@.len() - j,
    {
        j = j + 1;
    }
    j - i
}

pub(crate) fn digit_run(t: &Vec<char>, i: usize) -> (r: usize)
    requires
        i <= t@.len(),
    ensures
        r as int == digit_run_len(t@, i as int),
        i + r <= t@.len(),
{
    let mut j: usize = i;
    while j < t.len() && is_digit_exec(t[j])
        invariant
            i <= j <= t@.len(),
            digit_run_len(t@, i as int) == (j - i) + digit_run_len(t@, j as int),
        decreases t@.len() - j,
    {
        j = j + 1;
    }
    j - i
}

fn upper_digit_run(t: &Vec<char>, i: usize) -> (r: usize)
    requires
        i <= t@.len(),
    ensures
        r as int == upper_digit_run_len(t@, i as int),
        i + r <= t@.len(),
{
    let mut j: usize = i;
    while j < t.len() && is_upper_digit_exec(t[j])
        invariant
            i <= j <= t@.len(),
            upper_digit_run_len(t@, i as int) == (j - i) + upper_digit_run_len(t@, j as int),
        decreases t@.len() - j,
    {
        j = j + 1;
    }
    j - i
}

fn code_end_exec(t: &Vec<char>, i: usize) -> (r: Option<usize>)
    requires
        i <= t@.len(),
    ensures
        match r {
            Some(e) => code_end_at(t@, i as int) == Some(e as int) && i < e <= t@.len(),
            None => code_end_at(t@, i as int) is None,
        },
{
    let n = t.len();
    let ur = upper_run(t, i);
    if ur >= 3 {
        let d = digit_run(t, i + 3);
        if d >= 3 {
            let take = if d >= 4 {
                4
            } else {
                d
            };
            return Some(i + 3 + take);
        }
    }
    if ur >= 2 {
        let d = digit_run(t, i + 2);
        if d >= 3 {
            let take = if d >= 4 {
                4
            } else {
                d
            };
            return Some(i + 2 + take);
        }
    }
    if ur >= 1 {
        let d = digit_run(t, i + 1);
        if d >= 3 {
            let take = if d >= 4 {
                4
            } else {
                d
            };
            return Some(i + 1 + take);
        }
    }
    None
}

fn find_code_exec(t: &Vec<char>) -> (r: Option<(usize, usize)>)
    ensures
        match r {
            Some(p) => find_code(t@, 0) == Some((p.0 as int, p.1 as int)) && p.0 < p.1 <= t@.len(),
            None => find_code(t@, 0) is None,
        },
{
    let mut i: usize = 0;
    while i < t.len()
        invariant
            0 <= i <= t@.len(),
            find_code(t@, 0) == find_code(t@, i as int),
        decreases t@.len() - i,
    {
        match code_end_exec(t, i) {
            Some(e) => {
                return Some((i, e));
            },
            None => {
                i = i + 1;
            },
        }
    }
    None
}

fn quoted_at_exec(t: &Vec<char>, i: usize) -> (r: Option<(usize, usize)>)
    requires
        i < t@.len(),
    ensures
        match r {
            Some(p) => quoted_at(t@, i as int) == Some((p.0 as int, p.1 as int)) && p.0 <= p.1
                <= t@.len(),
            None => quoted_at(t@, i as int) is None,
        },
{
    let n = t.len();
    if t[i] != '"' {
        return None;
    }
    let ar = upper_digit_run(t, i + 1);
    let mut l: usize = if ar >= 8 {
        8
    } else {
        ar
    };
    while l >= 4
        invariant
            l <= 8,
            i < t@.len(),
            quoted_at(t@, i as int) == quoted_try(t@, i as int, l as int),
        decreases l,
    {
        if t.len() - i - 1 > l {
            if t[i + 1 + l] == '"' {
                return Some((i + 1, i + 1 + l));
            }
        }
        l = l - 1;
    }
    None
}

fn find_quoted_exec(t: &Vec<char>) -> (r: Option<(usize, usize)>)
    ensures
        match r {
            Some(p) => find_quoted(t@, 0) == Some((p.0 as int, p.1 as int)) && p.0 <= p.1
                <= t@.len(),
            None => find_quoted(t@, 0) is None,
        },
{
    let mut i: usize = 0;
    while i < t.len()
        invariant
            0 <= i <= t@.len(),
            find_quoted(t@, 0) == find_quoted(t@, i as int),
        decreases t@.len() - i,
    {
        match quoted_at_exec(t, i) {
            Some(p) => {
                return Some(p);
            },
            None => {
                i = i + 1;
            },
        }
    }
    None
}

/// Reads the flight code out of a response body, exactly per
/// [`spec_extract_flight_code`]: the first code-shaped token, else the
/// first quoted code, else the whole body trimmed.
pub fn extract_flight_code(response: &str) -> (r: String)
    ensures
        r@ == spec_extract_flight_code(response@),
{
    let t = string_to_chars(response);
    match find_code_exec(&t) {
        Some(p) => {
            let piece = subvec_chars(&t, p.0, p.1);
            chars_to_string(&piece)
        },
        None => match find_quoted_exec(&t) {
            Some(p) => {
                let piece = subvec_chars(&t, p.0, p.1);
                chars_to_string(&piece)
            },
            None => {
                let piece = trim_chars(&t);
                chars_to_string(&piece)
            },
        },
    }
}

} // verus!
