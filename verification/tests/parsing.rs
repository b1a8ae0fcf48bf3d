use chrono::TimeZone;
use tmd_viewer::csvparse::parse_csv;
use tmd_viewer::time::str_to_timestamp;
use tmd_viewer::url::extract_feed_id;

fn ts(s: &str, offset: i32) -> Option<i64> {
    str_to_timestamp(&s.as_bytes().to_vec(), offset)
}

fn chrono_ts(s: &str, offset: i32) -> i64 {
    let ndt = chrono::NaiveDateTime::parse_from_str(s, "%Y/%m/%d %H:%M:%S").unwrap();
    chrono::FixedOffset::east_opt(offset)
        .unwrap()
        .from_local_datetime(&ndt)
        .unwrap()
        .timestamp()
}

#[test]
fn timestamp_matches_chrono_utc() {
    for s in [
        "2021/03/04 05:06:07",
        "2020/02/29 23:59:59",
        "1970/01/01 00:00:00",
        "1969/12/31 23:59:59",
        "2000/12/31 00:00:00",
        "1999/01/01 12:00:00",
    ] {
        assert_eq!(ts(s, 0), Some(chrono_ts(s, 0)), "disagreement on {}", s);
    }
}

#[test]
fn timestamp_matches_chrono_with_offset() {
    for off_hours in [-12i32, -1, 0, 1, 9, 14] {
        let off = off_hours * 3600;
        let s = "2023/01/02 03:04:05";
        assert_eq!(ts(s, off), Some(chrono_ts(s, off)));
    }
}

#[test]
fn timestamp_exact_value() {
    // 2023-01-02 03:04:05 UTC.
    assert_eq!(ts("2023/01/02 03:04:05", 0), Some(1672628645));
    // The same local reading nine hours ahead of UTC is nine hours earlier.
    assert_eq!(ts("2023/01/02 03:04:05", 9 * 3600), Some(1672628645 - 9 * 3600));
}

#[test]
fn timestamp_rejects_bad_dates() {
    assert_eq!(ts("2021/02/29 00:00:00", 0), None); // not a leap year
    assert_eq!(ts("2021/13/01 00:00:00", 0), None); // no thirteenth month
    assert_eq!(ts("2021/00/10 00:00:00", 0), None);
    assert_eq!(ts("2021/04/31 00:00:00", 0), None); // April has 30 days
    assert_eq!(ts("2021/01/01 24:00:00", 0), None);
    assert_eq!(ts("2021/01/01 00:60:00", 0), None);
    assert_eq!(ts("2021/01/01 00:00:60", 0), None);
    assert_eq!(ts("2021-01-01 00:00:00", 0), None); // wrong separators
    assert_eq!(ts("2021/01/01 00:00:00 ", 0), None); // trailing input
    assert_eq!(ts("21/01/01 00:00:00", 0), None); // no zero padding
    assert_eq!(ts("", 0), None);
}

#[test]
fn leap_year_rules() {
    assert!(ts("2000/02/29 00:00:00", 0).is_some()); // divisible by 400
    assert_eq!(ts("1900/02/29 00:00:00", 0), None); // divisible by 100 only
    assert!(ts("2024/02/29 00:00:00", 0).is_some());
}

fn feed_id(u: &str) -> Option<i64> {
    extract_feed_id(&u.as_bytes().to_vec())
}

fn regex_feed_id(u: &str) -> Option<i64> {
    let re =
        regex::Regex::new(r"^https?://(?:(?:mobile)\.)?twitter\.com/([a-zA-Z0-9_]+)/status/([0-9]+)")
            .unwrap();
    let cap = re.captures(u)?;
    cap[2].parse::<i64>().ok()
}

#[test]
fn feed_id_matches_regex_reference() {
    for u in [
        "https://twitter.com/bob/status/42",
        "http://twitter.com/bob/status/42",
        "https://mobile.twitter.com/a_1/status/123456789?s=20",
        "https://twitter.com/bob/status/42/photo/1",
        "https://twitter.com/bob/status/",
        "https://twitter.com/bob/statuses/42",
        "https://example.com/bob/status/42",
        "ftp://twitter.com/bob/status/42",
        "https://twitter.com//status/42",
        "https://mobile.mobile.twitter.com/bob/status/42",
        "https://twitter.com/bob.x/status/42",
        "notaurl",
        "",
    ] {
        assert_eq!(feed_id(u), regex_feed_id(u), "disagreement on {}", u);
    }
}

#[test]
fn feed_id_exact_values() {
    assert_eq!(feed_id("https://twitter.com/bob/status/42"), Some(42));
    assert_eq!(feed_id("https://mobile.twitter.com/bob/status/007"), Some(7));
    assert_eq!(
        feed_id("https://twitter.com/bob/status/9223372036854775807"),
        Some(i64::MAX)
    );
    // One past the largest signed 64-bit value: dropped, as the reference
    // parse would fail.
    assert_eq!(feed_id("https://twitter.com/bob/status/9223372036854775808"), None);
    assert_eq!(
        feed_id("https://twitter.com/bob/status/9223372036854775808"),
        regex_feed_id("https://twitter.com/bob/status/9223372036854775808")
    );
}

fn records(input: &str) -> Vec<Vec<Vec<u8>>> {
    parse_csv(&input.as_bytes().to_vec())
}

fn csv_crate_records(input: &str) -> Vec<Vec<Vec<u8>>> {
    let mut out = Vec::new();
    let mut rdr = csv::ReaderBuilder::new()
        .has_headers(false)
        .flexible(true)
        .from_reader(input.as_bytes());
    for rec in rdr.byte_records() {
        let rec = rec.unwrap();
        out.push(rec.iter().map(|f| f.to_vec()).collect());
    }
    out
}

#[test]
fn csv_matches_reference_reader() {
    for input in [
        "a,b,c\nd,e,f\n",
        "a,b,c\r\nd,e,f\r\n",
        "a,b,c",
        "a,,c\n,,\n",
        "\"a,b\",c\n",
        "\"say \"\"hi\"\"\",x\n",
        "\"line\nbreak\",y\n",
        "one\n\n\ntwo\n",
        "",
        "\"\",x\n",
    ] {
        assert_eq!(records(input), csv_crate_records(input), "disagreement on {:?}", input);
    }
}

#[test]
fn csv_exact_shapes() {
    let r = records("a,b\nc,d\n");
    assert_eq!(r.len(), 2);
    assert_eq!(r[0], vec![b"a".to_vec(), b"b".to_vec()]);
    assert_eq!(r[1], vec![b"c".to_vec(), b"d".to_vec()]);

    // Blank lines yield no record; the last record needs no line break.
    let r = records("a\n\nb");
    assert_eq!(r.len(), 2);
    assert_eq!(r[0], vec![b"a".to_vec()]);
    assert_eq!(r[1], vec![b"b".to_vec()]);

    // A quoted field keeps commas and line breaks; a doubled quote is one
    // literal quote.
    let r = records("\"x,y\nz\",\"a\"\"b\"\n");
    assert_eq!(r.len(), 1);
    assert_eq!(r[0], vec![b"x,y\nz".to_vec(), b"a\"b".to_vec()]);
}

#[test]
fn path_extension_rules() {
    let ext = |p: &str| tmd_viewer::bytes::path_extension_exec(&p.as_bytes().to_vec());
    assert_eq!(ext("export.csv"), b"csv".to_vec());
    assert_eq!(ext("dir/export.csv"), b"csv".to_vec());
    assert_eq!(ext("dir.d/export"), b"".to_vec());
    assert_eq!(ext(".csv"), b"".to_vec()); // hidden file, no extension
    assert_eq!(ext("export."), b"".to_vec());
    assert_eq!(ext("a/b/c.tar.gz"), b"gz".to_vec());
    assert_eq!(ext(""), b"".to_vec());
}
