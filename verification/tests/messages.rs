use acf_workshop::changelog::{
    after_attempt, changelog_or_default, check_length, check_status, line_breaks,
    read_announcement, FetchFailure, NextStep, ATTEMPTS, LONGEST_PAGE, PAUSE_SECONDS,
};
use acf_workshop::discord::{
    color_text, restart_message, restart_time, webhook_url, Palette, RESTART_DELAY_SECONDS,
};
use acf_workshop::steam::{changelog_url, details_url, item_url};

const EVERY_FAILURE: [FetchFailure; 6] = [
    FetchFailure::Unanswered,
    FetchFailure::Status(404),
    FetchFailure::TooLong,
    FetchFailure::NoAnnouncement,
    FetchFailure::NoParagraph,
    FetchFailure::EmptyParagraph,
];

#[test]
fn the_details_address_names_each_item_at_its_place() {
    let ids = vec!["111".to_string(), "222".to_string()];
    assert_eq!(
        details_url("KEY", &ids),
        "https://api.steampowered.com/IPublishedFileService/GetDetails/v1/?key=KEY&publishedfileids%5B0%5D=111&publishedfileids%5B1%5D=222&short_description=true&includeforsaledata=false&includemetadata=false&appid=108600&strip_description_bbcode=true"
    );
}

#[test]
fn the_details_address_of_no_item_has_no_item_parameter() {
    assert_eq!(
        details_url("", &Vec::new()),
        "https://api.steampowered.com/IPublishedFileService/GetDetails/v1/?key=&short_description=true&includeforsaledata=false&includemetadata=false&appid=108600&strip_description_bbcode=true"
    );
}

#[test]
fn places_of_two_digits_are_written_in_full() {
    let ids: Vec<String> = (0..12).map(|n| format!("i{n}")).collect();
    let url = details_url("k", &ids);
    assert!(url.contains("&publishedfileids%5B9%5D=i9&publishedfileids%5B10%5D=i10&publishedfileids%5B11%5D=i11&short"));
}

#[test]
fn the_pages_of_an_item_have_their_addresses() {
    assert_eq!(
        changelog_url("2875848298"),
        "https://steamcommunity.com/sharedfiles/filedetails/changelog/2875848298"
    );
    assert_eq!(
        item_url("2875848298"),
        "https://steamcommunity.com/sharedfiles/filedetails/?id=2875848298"
    );
    assert_eq!(webhook_url("12/ab"), "https://discord.com/api/webhooks/12/ab");
}

#[test]
fn the_restart_is_announced_five_minutes_ahead() {
    assert_eq!(RESTART_DELAY_SECONDS, 300);
    assert_eq!(restart_time(0), 300);
    assert_eq!(restart_time(1_700_000_000), 1_700_000_300);
    assert_eq!(restart_time(u64::MAX - 300), u64::MAX);
    assert_eq!(
        restart_message(1_700_000_300),
        "<bzzt> The server is due to restart at <t:1700000300>, the following mods have been updated: <kssht>"
    );
}

#[test]
fn a_colour_is_written_in_decimal() {
    assert_eq!(color_text(0), "0");
    assert_eq!(color_text(255), "255");
    assert_eq!(color_text(u16::MAX), "65535");
}

#[test]
fn only_the_status_200_is_read() {
    assert_eq!(check_status(200), Ok(()));
    for status in [0, 199, 201, 204, 301, 404, 429, 500, u16::MAX] {
        assert_eq!(check_status(status), Err(FetchFailure::Status(status)));
    }
}

#[test]
fn a_page_may_be_as_long_as_the_parser_takes() {
    assert_eq!(LONGEST_PAGE, u32::MAX as usize);
    assert_eq!(check_length(0), Ok(()));
    assert_eq!(check_length(LONGEST_PAGE), Ok(()));
    assert_eq!(check_length(LONGEST_PAGE + 1), Err(FetchFailure::TooLong));
    assert_eq!(check_length(usize::MAX), Err(FetchFailure::TooLong));
}

#[test]
fn break_tags_become_line_feeds() {
    assert_eq!(line_breaks(""), "");
    assert_eq!(line_breaks("<br></br>"), "\n");
    assert_eq!(line_breaks("a<br></br>b"), "a\nb");
    assert_eq!(line_breaks("Fixed:<br></br><br></br>- crash<br></br>"), "Fixed:\n\n- crash\n");
    assert_eq!(line_breaks("<br><br/></br><br></br"), "<br><br/></br><br></br");
    assert_eq!(line_breaks("<br></br<br></br>>"), "<br></br\n>");
    assert_eq!(line_breaks("é<br></br>日本<br></br>"), "é\n日本\n");
}

#[test]
fn line_breaks_are_what_replace_gives() {
    for html in ["", "<", "<br>", "<br></br>", "<<br></br>", "<br></br><br></br>", "<br><br></br></br>", "x<br></b<br></br>r>y", "ü<br></br>"] {
        assert_eq!(line_breaks(html), html.replace("<br></br>", "\n"), "{:?}", html);
    }
}

#[test]
fn a_found_paragraph_is_the_change_log() {
    assert_eq!(
        read_announcement(Some(Some("Added a thing<br></br>Removed a thing"))),
        Ok("Added a thing\nRemoved a thing".to_string())
    );
    assert_eq!(read_announcement(Some(Some(" "))), Ok(" ".to_string()));
}

#[test]
fn a_page_without_change_log_says_what_is_missing() {
    assert_eq!(read_announcement(None), Err(FetchFailure::NoAnnouncement));
    assert_eq!(read_announcement(Some(None)), Err(FetchFailure::NoParagraph));
    assert_eq!(read_announcement(Some(Some(""))), Err(FetchFailure::EmptyParagraph));
}

#[test]
fn some_failures_are_worth_another_attempt() {
    assert!(!FetchFailure::Unanswered.worth_retrying());
    assert!(FetchFailure::Status(503).worth_retrying());
    assert!(FetchFailure::Status(404).worth_retrying());
    assert!(FetchFailure::TooLong.worth_retrying());
    assert!(FetchFailure::NoAnnouncement.worth_retrying());
    assert!(!FetchFailure::NoParagraph.worth_retrying());
    assert!(!FetchFailure::EmptyParagraph.worth_retrying());
}

#[test]
fn a_change_log_ends_the_attempts() {
    for attempt in [0, 1, 2, 3, 4, u32::MAX] {
        assert_eq!(after_attempt(attempt, None), NextStep::Stop);
    }
}

#[test]
fn three_attempts_are_made_at_most() {
    assert_eq!(ATTEMPTS, 3);
    assert_eq!(PAUSE_SECONDS, 3);
    for failure in EVERY_FAILURE {
        for attempt in 1..=5 {
            let expected = if !failure.worth_retrying() {
                NextStep::Stop
            } else if attempt < 3 {
                NextStep::PauseAndRetry
            } else {
                NextStep::PauseAndStop
            };
            assert_eq!(after_attempt(attempt, Some(failure)), expected);
        }
    }
    assert_eq!(after_attempt(1, Some(FetchFailure::Status(500))), NextStep::PauseAndRetry);
    assert_eq!(after_attempt(2, Some(FetchFailure::NoAnnouncement)), NextStep::PauseAndRetry);
    assert_eq!(after_attempt(3, Some(FetchFailure::TooLong)), NextStep::PauseAndStop);
    assert_eq!(after_attempt(1, Some(FetchFailure::Unanswered)), NextStep::Stop);
}

#[test]
fn a_missing_change_log_has_words_in_its_place() {
    let missing = "Change log was either not provided or could not be fetched.";
    assert_eq!(changelog_or_default(None), missing);
    assert_eq!(changelog_or_default(Some(String::new())), missing);
    assert_eq!(changelog_or_default(Some("- fixed".to_string())), "- fixed");
}

#[test]
fn a_random_colour_is_a_number_of_sixteen_bits() {
    let mut palette = Palette::new();
    let mut seen = Vec::new();
    for _ in 0..64 {
        let colour = palette.next_color();
        let number: u16 = colour.parse().expect("a colour is a decimal number of 16 bits");
        assert_eq!(colour, number.to_string());
        seen.push(number);
    }
    seen.dedup();
    assert!(seen.len() > 1);
}
