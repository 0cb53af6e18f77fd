use iata_scraper::download::{
    classify_status, logo_file_name, logo_url, response_outcome, Disposition, Dispatcher, Failure, Outcome, MAX_IN_FLIGHT,
};
use iata_scraper::ensure_trailing_slash;
use iata_scraper::sources::{document_suffixes, document_url};

#[test]
fn statuses_are_classified() {
    assert_eq!(classify_status(404), Disposition::Skip);
    assert_eq!(classify_status(410), Disposition::Skip);
    assert_eq!(classify_status(200), Disposition::Save);
    assert_eq!(classify_status(204), Disposition::Save);
    assert_eq!(classify_status(299), Disposition::Save);
    assert_eq!(classify_status(301), Disposition::Fail(301));
    assert_eq!(classify_status(500), Disposition::Fail(500));
    assert_eq!(classify_status(403), Disposition::Fail(403));
    assert_eq!(classify_status(199), Disposition::Fail(199));
}

#[test]
fn outcomes_follow_status() {
    assert_eq!(response_outcome(404, false), Outcome::Skipped);
    assert_eq!(response_outcome(410, true), Outcome::Skipped);
    assert_eq!(response_outcome(503, false), Outcome::Failed(Failure::Status(503)));
    assert_eq!(response_outcome(200, true), Outcome::Saved);
    assert_eq!(response_outcome(200, false), Outcome::Failed(Failure::Storage));
}

#[test]
fn logo_addresses() {
    assert_eq!(logo_url("https://cdn.example.com/logos/", "AA"), "https://cdn.example.com/logos/AA.png");
    assert_eq!(logo_file_name("B2"), "B2.png");
}

#[test]
fn trailing_slash_is_added_once() {
    assert_eq!(ensure_trailing_slash("https://x/logos"), "https://x/logos/");
    assert_eq!(ensure_trailing_slash("https://x/logos/"), "https://x/logos/");
    assert_eq!(ensure_trailing_slash(""), "/");
}

#[test]
fn documents_are_listed_in_order() {
    let s = document_suffixes();
    assert_eq!(s.len(), 27);
    assert_eq!(s[0], "0%E2%80%939");
    assert_eq!(s[1], "A");
    assert_eq!(s[26], "Z");
    assert_eq!(
        document_url(&s[1]),
        "https://en.wikipedia.org/wiki/List_of_airline_codes_(A)"
    );
}

#[test]
fn never_more_than_cap_in_flight() {
    let codes: Vec<String> = (0..50).map(|i| format!("{:02}", i)).collect();
    let mut d = Dispatcher::new(codes, MAX_IN_FLIGHT);
    let mut flying: Vec<String> = Vec::new();
    let mut peak = 0;
    let mut step = 0usize;
    while !d.is_finished() {
        while let Some(c) = d.next_dispatch() {
            flying.push(c);
        }
        assert!(d.in_flight_count() <= 12);
        peak = peak.max(d.in_flight_count());
        let c = flying.remove(step % flying.len());
        let outcome = match step % 3 {
            0 => Outcome::Saved,
            1 => Outcome::Skipped,
            _ => Outcome::Failed(Failure::Status(500)),
        };
        assert!(d.complete(&c, outcome));
        assert!(!d.complete(&c, Outcome::Saved));
        step += 1;
    }
    assert_eq!(peak, 12);
    let (done, outcomes) = d.results();
    assert_eq!(done.len(), 50);
    assert_eq!(outcomes.len(), 50);
    let mut sorted = done.clone();
    sorted.sort();
    sorted.dedup();
    assert_eq!(sorted.len(), 50);
}
