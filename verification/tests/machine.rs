//! What a command came to, and what a server's date says.
use meridian::doctor::Failure;
use meridian::machine::{http_date, not_run, ran, ran_saying};

#[test]
fn a_servers_date_is_read_as_seconds_since_the_epoch() {
    // Checked against a known instant rather than against this code's own
    // arithmetic: 2026-09-23T00:12:19Z.
    assert_eq!(
        http_date("Wed, 23 Sep 2026 00:12:19 GMT"),
        Some(1_790_122_339)
    );
    assert_eq!(http_date("Thu, 01 Jan 1970 00:00:00 GMT"), Some(0));
    assert_eq!(
        http_date("Sat, 29 Feb 2020 12:00:00 GMT"),
        Some(1_582_977_600)
    );
}

#[test]
fn anything_else_is_no_date_rather_than_a_wrong_one() {
    assert_eq!(http_date("yesterday"), None);
    assert_eq!(http_date(""), None);
    for wrong in [
        "Thu, 32 Jan 1970 00:00:00 GMT",
        "Thu, 00 Jan 1970 00:00:00 GMT",
        "Mon, 29 Feb 2100 00:00:00 GMT",
        "Wed, 31 Apr 2026 00:00:00 GMT",
        "Wed, 23 Sep 2026 24:00:00 GMT",
        "Wed, 23 Sep 2026 00:60:00 GMT",
        "Wed, 23 Sep 2026 00:00:61 GMT",
        "Wed, 31 Dec 1969 23:59:60 GMT",
        "Wed, 23 Sep 2026 00:12:19 PST",
        "Wed, 23 Sep 2026 00:12:19",
        "Wed, 3 Sep 2026 00:12:19 GMT",
        "Wed, +3 Sep 2026 00:12:19 GMT",
        "Day, 23 Sep 2026 00:12:19 GMT",
    ] {
        assert_eq!(http_date(wrong), None, "{wrong}");
    }
    assert_eq!(http_date("Wed, 23 Sept 2026 00:12:19 GMT"), None);
    assert_eq!(http_date("Wed, 23 Sep 2026 00:12 GMT"), None);
    assert_eq!(http_date("Wed, 31 Dec 1969 23:59:59 GMT"), None);
    assert_eq!(
        http_date("Wed, 23 Sep 18446744073709551615 00:00:00 GMT"),
        None
    );
}

#[test]
fn a_century_that_is_no_leap_year_has_no_day_more() {
    // 2100-03-01T00:00:00Z.
    assert_eq!(
        http_date("Mon, 01 Mar 2100 00:00:00 GMT"),
        Some(4_107_542_400)
    );
    // 2000-12-31T23:59:59Z.
    assert_eq!(
        http_date("Sun, 31 Dec 2000 23:59:59 GMT"),
        Some(978_307_199)
    );
}

#[test]
fn a_command_that_failed_says_what_it_said_on_both() {
    assert_eq!(ran(true, b" yes\n", b"warned"), Ok(" yes\n".to_string()));
    assert_eq!(
        ran_saying(false, "no\n".into(), " because\n"),
        Err(Failure::Said("nobecause".into()))
    );
    assert_eq!(
        ran(false, b"no\n", b" because\n"),
        Err(Failure::Said("nobecause".into()))
    );
    assert_eq!(
        ran(true, b"\xff", b""),
        Ok("\u{fffd}".to_string())
    );
}

#[test]
fn a_program_that_is_not_here_is_not_one_that_failed() {
    assert_eq!(
        not_run("helm", true, "no such file"),
        Failure::Missing("helm".into())
    );
    assert_eq!(
        not_run("helm", false, "denied").text(),
        "helm: denied"
    );
}

#[test]
fn dates_are_as_far_apart_as_the_seconds_between_them() {
    let read = |said: &str| http_date(said).unwrap();
    // Across a month's end, a leap day, a year's end and a century's, whatever
    // days they name.
    for (one, other) in [
        ("Mon, 30 Sep 2026 23:59:59 GMT", "Mon, 01 Oct 2026 00:00:00 GMT"),
        ("Tue, 29 Feb 2028 23:59:59 GMT", "Sun, 01 Mar 2028 00:00:00 GMT"),
        ("Fri, 31 Dec 1999 23:59:59 GMT", "Fri, 01 Jan 2000 00:00:00 GMT"),
        ("Sun, 28 Feb 2100 23:59:59 GMT", "Sat, 01 Mar 2100 00:00:00 GMT"),
    ] {
        assert_eq!(read(other), read(one) + 1, "{one}");
    }
    assert_eq!(read("Fri, 31 Dec 9999 23:59:59 GMT"), 253_402_300_799);
    // A second that is put in counts as the one after it.
    assert_eq!(read("Sat, 31 Dec 2016 23:59:60 GMT"), 1_483_228_800);
    assert_eq!(read("Sun, 01 Jan 2017 00:00:00 GMT"), 1_483_228_800);
}
