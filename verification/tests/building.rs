use ydui::artifact::detect_new_artifact;
use ydui::command::{
    build_args, cookie_text_to_write, restart_command, split_whitespace_args, trim,
    DownloadRequest,
};
use ydui::files::{sort_files, FileInfo};

fn names(v: &[&str]) -> Vec<String> {
    v.iter().map(|s| String::from(*s)).collect()
}

#[test]
fn height_capped_quality_without_acceleration() {
    let req = DownloadRequest {
        url: String::from("https://example.com/v"),
        proxy: None,
        cookie_text: None,
        use_aria2: false,
        quality: String::from("720"),
        custom_args: None,
    };
    let args = build_args(&req, "downloads", "cookies.txt", false);
    assert_eq!(
        args,
        names(&[
            "--encoding",
            "utf8",
            "-f",
            "bestvideo[height<=720]+bestaudio/best",
            "-P",
            "downloads",
            "https://example.com/v",
        ])
    );
    assert!(!args.iter().any(|a| a == "--external-downloader"));
}

#[test]
fn best_quality_with_acceleration() {
    let req = DownloadRequest {
        url: String::from("https://example.com/v"),
        proxy: None,
        cookie_text: None,
        use_aria2: true,
        quality: String::from("best"),
        custom_args: None,
    };
    let args = build_args(&req, "downloads", "cookies.txt", false);
    assert!(args.contains(&String::from("bestvideo+bestaudio/best")));
    let i = args
        .iter()
        .position(|a| a == "--external-downloader")
        .unwrap();
    assert_eq!(args[i + 1], "aria2c");
    assert_eq!(args[i + 2], "--external-downloader-args");
    assert_eq!(args[i + 3], "-x 16 -k 1m");
}

#[test]
fn no_quality_selector_when_none_requested() {
    let req = DownloadRequest {
        url: String::from("u"),
        proxy: None,
        cookie_text: None,
        use_aria2: false,
        quality: String::from("none"),
        custom_args: None,
    };
    let args = build_args(&req, "downloads", "cookies.txt", false);
    assert_eq!(args, names(&["--encoding", "utf8", "-P", "downloads", "u"]));
}

#[test]
fn full_argument_order_with_cookie_proxy_and_custom_args() {
    let req = DownloadRequest {
        url: String::from("  https://example.com/v "),
        proxy: Some(String::from("socks5://127.0.0.1:1080")),
        cookie_text: Some(String::from("c")),
        use_aria2: true,
        quality: String::from("1080"),
        custom_args: Some(String::from("  --no-playlist   -R 3 ")),
    };
    let args = build_args(&req, "downloads", "cookies.txt", true);
    assert_eq!(
        args,
        names(&[
            "--encoding",
            "utf8",
            "-f",
            "bestvideo[height<=1080]+bestaudio/best",
            "-P",
            "downloads",
            "--external-downloader",
            "aria2c",
            "--external-downloader-args",
            "-x 16 -k 1m",
            "--cookies",
            "cookies.txt",
            "--proxy",
            "socks5://127.0.0.1:1080",
            "--no-playlist",
            "-R",
            "3",
            "https://example.com/v",
        ])
    );
}

#[test]
fn split_drops_blanks_and_keeps_token_order() {
    assert_eq!(
        split_whitespace_args("  --foo   bar\tbaz "),
        names(&["--foo", "bar", "baz"])
    );
    assert_eq!(split_whitespace_args("   "), Vec::<String>::new());
    assert_eq!(split_whitespace_args(""), Vec::<String>::new());
}

#[test]
fn trim_strips_both_ends_only() {
    assert_eq!(trim("  a b  "), "a b");
    assert_eq!(trim("ab"), "ab");
    assert_eq!(trim(" \t\n"), "");
    assert_eq!(trim(""), "");
}

#[test]
fn cookie_text_is_written_only_when_nonempty() {
    let mut req = DownloadRequest {
        url: String::from("u"),
        proxy: None,
        cookie_text: Some(String::from("k=v")),
        use_aria2: false,
        quality: String::from("none"),
        custom_args: None,
    };
    assert_eq!(cookie_text_to_write(&req).map(|s| s.as_str()), Some("k=v"));
    req.cookie_text = Some(String::new());
    assert!(cookie_text_to_write(&req).is_none());
    req.cookie_text = None;
    assert!(cookie_text_to_write(&req).is_none());
}

#[test]
fn new_file_in_after_listing_is_detected() {
    let before = names(&["a.mp4"]);
    let after = names(&["a.mp4", "b.mp4"]);
    assert_eq!(detect_new_artifact(&before, &after).as_deref(), Some("b.mp4"));
}

#[test]
fn first_new_name_in_enumeration_order_wins() {
    let before = names(&["a.mp4"]);
    let after = names(&["c.part", "a.mp4", "b.mp4"]);
    assert_eq!(detect_new_artifact(&before, &after).as_deref(), Some("c.part"));
}

#[test]
fn no_new_file_detects_nothing() {
    let before = names(&["a.mp4", "b.mp4"]);
    let after = names(&["b.mp4", "a.mp4"]);
    assert!(detect_new_artifact(&before, &after).is_none());
    assert!(detect_new_artifact(&before, &Vec::new()).is_none());
}

#[test]
fn empty_snapshot_detects_first_listed_file() {
    let after = names(&["x.mkv", "y.mkv"]);
    assert_eq!(detect_new_artifact(&Vec::new(), &after).as_deref(), Some("x.mkv"));
}

#[test]
fn listing_is_sorted_newest_first() {
    let files = vec![
        FileInfo { filename: String::from("a"), created_time: 5 },
        FileInfo { filename: String::from("b"), created_time: 9 },
        FileInfo { filename: String::from("c"), created_time: 7 },
    ];
    let sorted = sort_files(files);
    let got: Vec<(String, u64)> =
        sorted.into_iter().map(|f| (f.filename, f.created_time)).collect();
    assert_eq!(
        got,
        vec![
            (String::from("b"), 9),
            (String::from("c"), 7),
            (String::from("a"), 5),
        ]
    );
}

#[test]
fn equal_timestamps_keep_their_relative_order() {
    let files = vec![
        FileInfo { filename: String::from("x"), created_time: 5 },
        FileInfo { filename: String::from("y"), created_time: 5 },
        FileInfo { filename: String::from("z"), created_time: 6 },
    ];
    let sorted = sort_files(files);
    let got: Vec<String> = sorted.into_iter().map(|f| f.filename).collect();
    assert_eq!(got, vec![String::from("z"), String::from("x"), String::from("y")]);
}

#[test]
fn restart_command_in_and_out_of_container() {
    assert_eq!(restart_command(true, "/srv/ydui"), "kill -1 1");
    assert_eq!(restart_command(false, "/srv/ydui"), "pkill ydui; /srv/ydui &");
}
