use armbian_imager::images::board_info;
use armbian_imager::images::capitalize_vendor;
use armbian_imager::images::filter_images_for_board;
use armbian_imager::images::get_unique_boards;
use armbian_imager::images::group_by_board;
use armbian_imager::images::is_listed_image;
use armbian_imager::images::is_valid_image_extension;
use armbian_imager::images::normalize_slug;
use armbian_imager::images::shown_order;
use armbian_imager::images::ArmbianImage;
use chrono::Datelike;

fn blank() -> ArmbianImage {
    ArmbianImage {
        board_slug: None,
        board_name: None,
        board_vendor: None,
        company_name: None,
        company_logo: None,
        board_support: None,
        platinum_support: None,
        platinum_support_until: None,
        armbian_version: None,
        distro_release: None,
        kernel_branch: None,
        image_variant: None,
        preinstalled_application: None,
        promoted: None,
        file_url: None,
        file_url_sha: None,
        file_extension: None,
        file_size: None,
        download_repository: None,
    }
}

fn text(s: &str) -> Option<String> {
    Some(s.to_string())
}

fn image(slug: &str, version: &str, promoted: bool) -> ArmbianImage {
    ArmbianImage {
        board_slug: text(slug),
        armbian_version: text(version),
        promoted: if promoted { text("true") } else { text("false") },
        kernel_branch: text("current"),
        image_variant: text("minimal"),
        download_repository: text("archive"),
        file_url: Some(format!("https://dl/{}_{}.img.xz", slug, version)),
        file_size: text("1234"),
        ..blank()
    }
}

fn day(y: i32, m: u32, d: u32) -> i32 {
    chrono::NaiveDate::from_ymd_opt(y, m, d).unwrap().num_days_from_ce()
}

#[test]
fn slugs_are_compared_in_lower_case_with_hyphens() {
    assert_eq!(normalize_slug("Rock_5B"), "rock-5b");
    assert_eq!(normalize_slug("orangepi-5_plus"), "orangepi-5-plus");
    assert_eq!(normalize_slug(""), "");
    assert_eq!(normalize_slug("ÄB_c"), "äb-c");
}

#[test]
fn image_extensions() {
    for ext in ["img", "img.xz", "IMG.XZ", "img.gz", "imgfoo"] {
        assert!(is_valid_image_extension(ext), "{}", ext);
    }
    for ext in ["img.xz.asc", "img.xz.sha", "img.xz.torrent", "IMG.XZ.SHA", "xz", "", "oimg", "img.ASC"] {
        assert!(!is_valid_image_extension(ext), "{}", ext);
    }
}

#[test]
fn vendors_are_capitalized_word_by_word() {
    assert_eq!(capitalize_vendor("rockchip"), "Rockchip");
    assert_eq!(capitalize_vendor("intel-amd"), "Intel-Amd");
    assert_eq!(capitalize_vendor("other"), "Other");
    assert_eq!(capitalize_vendor(""), "");
    assert_eq!(capitalize_vendor("a-"), "A-");
    assert_eq!(capitalize_vendor("-a--b"), "-A--B");
    assert_eq!(capitalize_vendor("ßtar"), "SStar");
    assert_eq!(capitalize_vendor("Already"), "Already");
}

#[test]
fn images_of_a_board_are_filtered_and_ordered() {
    let mut images = vec![
        image("rock-5b", "24.2.1", false),
        image("Rock_5B", "24.11.1", false),
        image("rock-5c", "25.0.0", true),
        image("rock-5b", "23.8.1", true),
        image("rock-5b", "24.11.1", false),
        blank(),
    ];
    images[4].file_url = text("second");
    let shown = filter_images_for_board(&images, "ROCK_5b", None, None, None, false);
    let versions: Vec<(&str, bool, &str)> =
        shown.iter().map(|i| (i.armbian_version.as_str(), i.promoted, i.file_url.as_str())).collect();
    assert_eq!(
        versions,
        vec![
            ("23.8.1", true, "https://dl/rock-5b_23.8.1.img.xz"),
            ("24.2.1", false, "https://dl/rock-5b_24.2.1.img.xz"),
            ("24.11.1", false, "https://dl/Rock_5B_24.11.1.img.xz"),
            ("24.11.1", false, "second"),
        ]
    );
    assert_eq!(shown_order(&images, "rock-5b", None, None, None, false), vec![3, 0, 1, 4]);
    assert_eq!(shown[0].file_size, 1234);
    assert_eq!(shown[0].kernel_branch, "current");
    assert_eq!(shown[0].distro_release, "");
    assert_eq!(shown[0].file_url_sha, None);
    assert!(filter_images_for_board(&images, "none", None, None, None, false).is_empty());
    // an image without a slug belongs to the board without a name
    assert_eq!(filter_images_for_board(&images, "", None, None, None, false).len(), 1);
}

#[test]
fn the_filters_of_a_board() {
    let mut a = image("b", "1", false);
    a.preinstalled_application = text("openhab");
    a.kernel_branch = text("edge");
    a.download_repository = text("nightly");
    a.file_size = text("lots");
    let mut c = image("b", "2", false);
    c.preinstalled_application = text("");
    c.image_variant = text("server");
    let d = image("b", "3", false);
    let images = vec![a, c, d];
    let versions = |preapp: Option<&str>, kernel: Option<&str>, variant: Option<&str>, stable: bool| -> Vec<String> {
        filter_images_for_board(&images, "b", preapp, kernel, variant, stable)
            .into_iter()
            .map(|i| i.armbian_version)
            .collect()
    };
    assert_eq!(versions(None, None, None, false), vec!["3", "2", "1"]);
    assert_eq!(versions(Some("openhab"), None, None, false), vec!["1"]);
    assert_eq!(versions(Some("__EMPTY__"), None, None, false), vec!["3", "2"]);
    assert_eq!(versions(Some(""), None, None, false), vec!["3", "2"]);
    assert_eq!(versions(None, Some("edge"), None, false), vec!["1"]);
    assert_eq!(versions(None, Some("current"), None, false), vec!["3", "2"]);
    assert_eq!(versions(None, None, Some("server"), false), vec!["2"]);
    assert_eq!(versions(None, None, None, true), vec!["3", "2"]);
    assert_eq!(versions(Some("openhab"), Some("edge"), Some("minimal"), true), Vec::<String>::new());
    assert_eq!(filter_images_for_board(&images, "b", Some("openhab"), None, None, false)[0].file_size, 0);
}

fn supported(slug: &str, name: &str, support: &str) -> ArmbianImage {
    ArmbianImage {
        board_slug: text(slug),
        board_name: text(name),
        board_vendor: text("rockchip"),
        company_name: text(""),
        company_logo: text("logo.png"),
        board_support: text(support),
        ..blank()
    }
}

#[test]
fn boards_are_grouped_by_slug() {
    let mut platinum = supported("Rock_5B", "Rock 5B", "conf");
    platinum.platinum_support = text("true");
    platinum.platinum_support_until = text("2030-06-30");
    let images = vec![
        supported("rock-5b", "ROCK 5B", "csc"),
        platinum,
        supported("other-board", "Zeta", "conf"),
        blank(),
        supported("rock_5b", "ignored", "wip"),
    ];
    let groups = group_by_board(&images);
    assert_eq!(groups.len(), 2);
    assert_eq!(groups[0].slug, "rock-5b");
    assert_eq!(groups[0].written_slug, "rock-5b");
    assert_eq!(groups[0].board_name.as_deref(), Some("ROCK 5B"));
    assert_eq!(groups[0].count, 3);
    assert!(groups[0].has_community_support && groups[0].has_wip_support);
    assert!(!groups[0].has_standard_support && !groups[0].has_eos_support && !groups[0].has_tvb_support);
    assert_eq!(groups[0].platinum_support_until.as_deref(), Some("2030-06-30"));
    assert_eq!(groups[1].slug, "other-board");
    assert_eq!(groups[1].count, 1);
    assert!(groups[1].has_standard_support);

    let before = board_info(&groups[0], day(2030, 6, 30));
    assert!(before.has_platinum_support);
    assert!(!before.has_community_support && !before.has_wip_support);
    assert_eq!(before.image_count, 3);
    assert_eq!(before.vendor, "rockchip");
    assert_eq!(before.vendor_name, "Rockchip");
    assert_eq!(before.vendor_logo.as_deref(), Some("logo.png"));
    let after = board_info(&groups[0], day(2030, 7, 1));
    assert!(!after.has_platinum_support);
    assert!(after.has_community_support);
    assert!(!after.has_wip_support);
}

#[test]
fn a_board_shows_its_best_support() {
    let show = |supports: &[&str]| {
        let images: Vec<ArmbianImage> = supports.iter().map(|s| supported("b", "B", s)).collect();
        let info = board_info(&group_by_board(&images)[0], day(2025, 1, 1));
        (
            info.has_standard_support,
            info.has_community_support,
            info.has_eos_support,
            info.has_tvb_support,
            info.has_wip_support,
        )
    };
    assert_eq!(show(&["wip"]), (false, false, false, false, true));
    assert_eq!(show(&["wip", "tvb"]), (false, false, false, true, false));
    assert_eq!(show(&["wip", "tvb", "eos"]), (false, false, true, false, false));
    assert_eq!(show(&["wip", "tvb", "eos", "csc"]), (false, true, false, false, false));
    assert_eq!(show(&["wip", "tvb", "eos", "csc", "conf"]), (true, false, false, false, false));
    assert_eq!(show(&["unknown"]), (false, false, false, false, false));
}

#[test]
fn a_board_without_logo_is_listed_under_other() {
    let mut plain = supported("b", "B", "conf");
    plain.company_logo = text("");
    plain.company_name = text("Radxa");
    let info = board_info(&group_by_board(&vec![plain])[0], 0);
    assert_eq!((info.vendor.as_str(), info.vendor_name.as_str(), info.vendor_logo), ("other", "Other", None));

    let mut named = supported("b", "B", "conf");
    named.company_name = text("Radxa");
    let info = board_info(&group_by_board(&vec![named])[0], 0);
    assert_eq!((info.vendor.as_str(), info.vendor_name.as_str()), ("rockchip", "Radxa"));

    let mut unknown = supported("b", "B", "conf");
    unknown.board_vendor = None;
    unknown.board_name = None;
    let info = board_info(&group_by_board(&vec![unknown])[0], 0);
    assert_eq!((info.vendor.as_str(), info.vendor_name.as_str(), info.name.as_str()), ("other", "Other", "b"));

    let mut bad_date = supported("b", "B", "conf");
    bad_date.platinum_support = text("true");
    bad_date.platinum_support_until = text("next year");
    let info = board_info(&group_by_board(&vec![bad_date])[0], 0);
    assert!(!info.has_platinum_support && !info.has_standard_support);
}

#[test]
fn boards_are_listed_by_support_and_name() {
    let mut platinum = supported("p", "zulu", "conf");
    platinum.platinum_support = text("true");
    platinum.platinum_support_until = text("2030-01-01");
    let mut expired = supported("x", "Alpha", "conf");
    expired.platinum_support = text("true");
    expired.platinum_support_until = text("2020-01-01");
    let images = vec![
        supported("c1", "bravo", "csc"),
        supported("s2", "Mike", "conf"),
        platinum,
        supported("s1", "alpha", "conf"),
        expired,
        supported("c2", "Bravo", "wip"),
        supported("s3", "mike", "conf"),
    ];
    let names: Vec<String> = get_unique_boards(&images, day(2025, 1, 1)).into_iter().map(|b| b.name).collect();
    assert_eq!(names, vec!["zulu", "alpha", "Mike", "mike", "Alpha", "bravo", "Bravo"]);
    assert!(get_unique_boards(&Vec::new(), 0).is_empty());
}

#[test]
fn the_catalogue_lists_images_but_no_signatures_and_no_cloud_builds() {
    let entry = |ext: Option<&str>, branch: Option<&str>| ArmbianImage {
        file_extension: ext.map(|e| e.to_string()),
        kernel_branch: branch.map(|b| b.to_string()),
        ..image("rock-5b", "24.5.1", false)
    };
    assert!(is_listed_image(&entry(Some("img.xz"), Some("current"))));
    assert!(is_listed_image(&entry(Some("IMG.XZ"), None)));
    assert!(is_listed_image(&entry(Some("img"), Some("edge"))));
    assert!(!is_listed_image(&entry(Some("img.xz.sha"), Some("current"))));
    assert!(!is_listed_image(&entry(Some("img.xz.asc"), Some("current"))));
    assert!(!is_listed_image(&entry(Some("img.xz.torrent"), Some("current"))));
    assert!(!is_listed_image(&entry(Some("qcow2"), Some("current"))));
    assert!(!is_listed_image(&entry(Some("img.xz"), Some("cloud"))));
    assert!(!is_listed_image(&entry(None, Some("current"))));
}
