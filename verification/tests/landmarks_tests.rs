use retrieval::landmarks::{decode_city_landmark, extract_flight_code, flight_endpoint};

#[test]
fn home_cities_decode_from_the_travel_notes() {
    assert_eq!(decode_city_landmark("Delhi"), "Gateway of India");
    assert_eq!(decode_city_landmark("Chennai"), "Charminar");
    assert_eq!(decode_city_landmark("Jaisalmer"), "Sun Temple");
}

#[test]
fn the_home_entry_wins_for_mumbai() {
    // Mumbai appears in both lists; the home list is checked first.
    assert_eq!(decode_city_landmark("Mumbai"), "India Gate");
}

#[test]
fn international_cities_decode_too() {
    assert_eq!(decode_city_landmark("Paris"), "Taj Mahal");
    assert_eq!(decode_city_landmark("Istanbul"), "Big Ben");
    assert_eq!(decode_city_landmark("Los Angeles"), "Buckingham Palace");
}

#[test]
fn unknown_cities_map_to_the_unknown_marker() {
    assert_eq!(decode_city_landmark("Atlantis"), "Unknown Landmark");
    assert_eq!(decode_city_landmark(""), "Unknown Landmark");
}

#[test]
fn landmarks_choose_their_flight_endpoints() {
    assert_eq!(
        flight_endpoint("Gateway of India"),
        "https://register.hackrx.in/teams/public/flights/getFirstCityFlightNumber"
    );
    assert_eq!(
        flight_endpoint("Taj Mahal"),
        "https://register.hackrx.in/teams/public/flights/getSecondCityFlightNumber"
    );
    assert_eq!(
        flight_endpoint("Big Ben"),
        "https://register.hackrx.in/teams/public/flights/getFourthCityFlightNumber"
    );
    assert_eq!(
        flight_endpoint("Anything Else"),
        "https://register.hackrx.in/teams/public/flights/getFifthCityFlightNumber"
    );
}

#[test]
fn a_flight_code_is_found_in_plain_text() {
    assert_eq!(extract_flight_code("AI123"), "AI123");
    assert_eq!(extract_flight_code("Your flight is UK7890, gate 4"), "UK7890");
}

#[test]
fn the_code_may_start_mid_token() {
    // '6' cannot open the letter part, so the match starts at 'E'.
    assert_eq!(extract_flight_code("number 6E4567 confirmed"), "E4567");
}

#[test]
fn at_most_three_letters_and_four_digits_are_taken() {
    assert_eq!(extract_flight_code("WXYZ12345"), "XYZ1234");
}

#[test]
fn a_quoted_code_is_the_fallback() {
    assert_eq!(extract_flight_code("{\"code\": \"ABCDEF\"}"), "ABCDEF");
}

#[test]
fn the_trimmed_body_is_the_last_resort() {
    assert_eq!(extract_flight_code("  hello there  "), "hello there");
    assert_eq!(extract_flight_code("\n\tok\r\n"), "ok");
}
