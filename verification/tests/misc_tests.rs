use armbian_imager::commands::check_upload_content;
use armbian_imager::commands::collect_logs;
use armbian_imager::commands::custom_image_info;
use armbian_imager::commands::get_download_progress;
use armbian_imager::commands::open_url_commands;
use armbian_imager::commands::previous_logs;
use armbian_imager::commands::upload_outcome;
use armbian_imager::commands::EnvValue;
use armbian_imager::commands::ReadLog;
use armbian_imager::commands::UploadError;
use armbian_imager::commands::UploadHeader;
use armbian_imager::image_cache::board_image_url;
use armbian_imager::image_cache::classify_answer;
use armbian_imager::image_cache::get_cache_stats;
use armbian_imager::logging::get_logs_size;
use armbian_imager::utils::total_bytes;
use armbian_imager::image_cache::get_cached_image_path;
use armbian_imager::image_cache::init_cache;
use armbian_imager::image_cache::is_expired;
use armbian_imager::image_cache::tally_prefetch;
use armbian_imager::image_cache::CacheEntry;
use armbian_imager::image_cache::ImageCache;
use armbian_imager::image_cache::PictureAnswer;
use armbian_imager::image_cache::PrefetchTally;
use armbian_imager::logging::cleanup_old_logs;
use armbian_imager::logging::init;
use armbian_imager::logging::is_log_file_name;
use armbian_imager::logging::LogFile;
use armbian_imager::settings::get_cache_enabled;
use armbian_imager::settings::get_cache_max_size;
use armbian_imager::settings::get_developer_mode;
use armbian_imager::settings::get_language;
use armbian_imager::settings::get_show_motd;
use armbian_imager::settings::get_show_updater_modal;
use armbian_imager::settings::get_theme;
use armbian_imager::settings::StoredValue;
use armbian_imager::text::split_lines;
use armbian_imager::commands::get_flash_progress;
use armbian_imager::commands::upload_result;
use armbian_imager::config;
use armbian_imager::download::DownloadState;
use armbian_imager::flash::FlashState;
use armbian_imager::logging::debug;
use armbian_imager::logging::error;
use armbian_imager::logging::get_current_log_path;
use armbian_imager::logging::get_log_dir;
use armbian_imager::logging::info;
use armbian_imager::logging::log_file_name;
use armbian_imager::logging::warn;
use armbian_imager::logging::LogLevel;
use armbian_imager::logging::Logger;
use armbian_imager::logging::LoggerConfig;
use armbian_imager::logging::Timestamp;
use armbian_imager::progress::progress_percent;
use armbian_imager::settings::default_cache_enabled;
use armbian_imager::settings::default_cache_max_size;
use armbian_imager::settings::default_developer_mode;
use armbian_imager::settings::default_language;
use armbian_imager::settings::default_show_motd;
use armbian_imager::settings::default_show_updater_modal;
use armbian_imager::settings::default_theme;
use armbian_imager::settings::get_system_info;
use armbian_imager::settings::is_large_log;
use armbian_imager::settings::read_last_lines;
use armbian_imager::settings::validate_cache_max_size;
use armbian_imager::settings::SettingsError;
use armbian_imager::text::is_whitespace;
use armbian_imager::text::parse_u32;
use armbian_imager::text::replace_all;
use armbian_imager::text::to_decimal;
use armbian_imager::text::to_hex;
use armbian_imager::text::trim;
use armbian_imager::utils::find_binary;
use armbian_imager::utils::get_binary_search_paths;
use armbian_imager::utils::get_cache_dir;
use armbian_imager::utils::get_cpu_cores;
use armbian_imager::utils::get_recommended_threads;
use armbian_imager::utils::invoking_user_id;
use armbian_imager::utils::Platform;
use armbian_imager::utils::SystemDirs;

fn dirs() -> SystemDirs {
    SystemDirs {
        invoking_user_home: None,
        cache_dir: Some("/home/u/.cache".to_string()),
        data_local_dir: Some("/home/u/.local/share".to_string()),
        temp_parent: Some("/".to_string()),
        temp_dir: "/tmp".to_string(),
    }
}

fn now() -> Timestamp {
    Timestamp { time: "14:03:59".to_string(), full: "2024-05-17 14:03:59.123".to_string() }
}

#[test]
fn test_log_level_ordering() {
    assert!(LogLevel::Debug < LogLevel::Info);
    assert!(LogLevel::Info < LogLevel::Warn);
    assert!(LogLevel::Warn < LogLevel::Error);
}

#[test]
fn test_log_dir() {
    let log_dir = get_log_dir(&get_cache_dir(config::app::NAME, &dirs()));
    assert!(log_dir.contains("armbian-imager"));
    assert!(log_dir.contains("logs"));
}

#[test]
fn test_get_cache_dir() {
    let cache = get_cache_dir("test-app", &dirs());
    assert!(cache.contains("test-app"));
}

#[test]
fn test_get_cpu_cores() {
    // when the system does not say how many cores it has
    let cores = get_cpu_cores(None);
    assert!(cores >= 1);
}

#[test]
fn test_get_recommended_threads() {
    let cores = get_cpu_cores(None);
    let threads = get_recommended_threads(cores);
    assert!(threads >= 1);
    assert!(threads <= cores);
}

#[test]
fn recommended_threads_are_half_the_cores_and_at_least_one() {
    assert_eq!(get_recommended_threads(0), 1);
    assert_eq!(get_recommended_threads(1), 1);
    assert_eq!(get_recommended_threads(2), 1);
    assert_eq!(get_recommended_threads(3), 1);
    assert_eq!(get_recommended_threads(4), 2);
    assert_eq!(get_recommended_threads(17), 8);
    assert_eq!(get_cpu_cores(None), 2);
    assert_eq!(get_cpu_cores(Some(12)), 12);
}

#[test]
fn log_levels_are_ordered_both_ways_and_named() {
    assert!(LogLevel::Error > LogLevel::Debug);
    assert!(LogLevel::Info >= LogLevel::Info);
    assert!(!(LogLevel::Warn < LogLevel::Info));
    assert_eq!(LogLevel::Debug.as_str(), "DEBUG");
    assert_eq!(LogLevel::Info.as_str(), "INFO");
    assert_eq!(LogLevel::Warn.as_str(), "WARN");
    assert_eq!(LogLevel::Error.as_str(), "ERROR");
}

#[test]
fn cache_dir_falls_back_in_order() {
    let mut d = dirs();
    assert_eq!(get_cache_dir("app", &d), "/home/u/.cache/app");
    d.invoking_user_home = Some("/home/alice".to_string());
    assert_eq!(get_cache_dir("app", &d), "/home/alice/.cache/app");
    d.invoking_user_home = None;
    d.cache_dir = None;
    assert_eq!(get_cache_dir("app", &d), "/home/u/.local/share/app");
    d.data_local_dir = None;
    assert_eq!(get_cache_dir("app", &d), "//app");
    d.temp_parent = None;
    assert_eq!(get_cache_dir("app", &d), "/tmp/app");
}

#[test]
fn invoking_user_id_prefers_pkexec() {
    assert_eq!(invoking_user_id(Some("1000"), Some("1001")), Some(1000));
    assert_eq!(invoking_user_id(None, Some("1001")), Some(1001));
    assert_eq!(invoking_user_id(None, None), None);
    // a value that is no number is not replaced by the other variable
    assert_eq!(invoking_user_id(Some("root"), Some("1001")), None);
    assert_eq!(invoking_user_id(Some(""), None), None);
}

#[test]
fn binary_search_paths_by_platform() {
    assert_eq!(
        get_binary_search_paths("xz", Platform::MacOs),
        vec!["/opt/homebrew/bin/xz", "/usr/local/bin/xz", "/usr/bin/xz"]
    );
    assert_eq!(get_binary_search_paths("xz", Platform::Linux), vec!["/usr/bin/xz", "/bin/xz", "/usr/local/bin/xz"]);
    assert_eq!(
        get_binary_search_paths("xz", Platform::Windows),
        vec!["C:\\Program Files\\xz\\xz.exe", "C:\\Program Files (x86)\\xz\\xz.exe"]
    );
    assert_eq!(get_binary_search_paths("xz", Platform::Other), vec!["/usr/bin/xz"]);
}

#[test]
fn find_binary_returns_the_first_place_that_has_it() {
    assert_eq!(find_binary("xz", Platform::Linux, |_| true), Some("/usr/bin/xz".to_string()));
    assert_eq!(find_binary("xz", Platform::Linux, |p| p.starts_with("/bin")), Some("/bin/xz".to_string()));
    assert_eq!(
        find_binary("xz", Platform::Linux, |p| p.contains("local")),
        Some("/usr/local/bin/xz".to_string())
    );
    assert_eq!(find_binary("xz", Platform::Linux, |_| false), None);
    let asked = std::cell::RefCell::new(Vec::new());
    let found = find_binary("xz", Platform::MacOs, |p| {
        asked.borrow_mut().push(p.clone());
        p == "/usr/local/bin/xz"
    });
    assert_eq!(found, Some("/usr/local/bin/xz".to_string()));
    assert_eq!(*asked.borrow(), vec!["/opt/homebrew/bin/xz", "/usr/local/bin/xz"]);
}

#[test]
fn logger_drops_messages_below_its_level() {
    let logger = Logger::new(Some("/tmp/x.log".to_string()));
    assert!(debug(&logger, "cache", "quiet", &now()).is_none());
    assert!(info(&logger, "cache", "hello", &now()).is_some());
    assert!(warn(&logger, "cache", "hello", &now()).is_some());
    assert!(error(&logger, "cache", "hello", &now()).is_some());
    let mut logger = logger;
    logger.set_log_level(true);
    assert!(debug(&logger, "cache", "loud", &now()).is_some());
    logger.set_log_level(false);
    assert!(debug(&logger, "cache", "quiet", &now()).is_none());
}

#[test]
fn logger_formats_lines() {
    let mut logger = Logger::new(Some("/tmp/x.log".to_string()));
    let out = info(&logger, "cache", "hello world", &now()).unwrap();
    let coloured = "\x1b[90m14:03:59 \x1b[32m\u{25cf}\x1b[0m \x1b[32mcache:\x1b[0m hello world";
    assert_eq!(out.console.as_deref(), Some(coloured));
    assert_eq!(out.file.as_deref(), Some(coloured));

    logger.config.use_colors = false;
    let out = error(&logger, "flash", "no", &now()).unwrap();
    assert_eq!(out.console.as_deref(), Some("[2024-05-17 14:03:59.123] [ERROR] [flash] no"));
    assert_eq!(out.file.as_deref(), Some("\x1b[90m14:03:59 \x1b[31m\u{25cf}\x1b[0m \x1b[31mflash:\x1b[0m no"));

    logger.config.console_output = false;
    let out = warn(&logger, "flash", "no", &now()).unwrap();
    assert_eq!(out.console, None);
    assert!(out.file.unwrap().contains("\x1b[33m"));

    logger.config.file_output = false;
    let out = warn(&logger, "flash", "no", &now()).unwrap();
    assert_eq!(out.file, None);

    let no_file = Logger::new(None);
    let out = info(&no_file, "m", "x", &now()).unwrap();
    assert_eq!(out.file, None);
    assert!(out.console.is_some());
}

#[test]
fn logger_defaults_and_paths() {
    let config = LoggerConfig::default();
    assert_eq!(config.min_level, LogLevel::Info);
    assert!(config.console_output && config.file_output && config.use_colors);
    let logger = Logger::new(Some("/c/logs/a.log".to_string()));
    assert_eq!(get_current_log_path(&logger), Some("/c/logs/a.log".to_string()));
    assert_eq!(get_current_log_path(&Logger::new(None)), None);
    assert_eq!(get_log_dir("/c"), "/c/logs");
    assert_eq!(log_file_name("20240517_140359"), "armbian-imager_20240517_140359.log");
}

#[test]
fn settings_defaults() {
    assert_eq!(default_theme(), "auto");
    assert_eq!(default_language(), "auto");
    assert!(default_show_motd());
    assert!(default_show_updater_modal());
    assert!(!default_developer_mode());
    assert!(default_cache_enabled());
    assert_eq!(default_cache_max_size(), 20 * 1024 * 1024 * 1024);
    assert_eq!(default_cache_max_size(), config::cache::DEFAULT_MAX_SIZE);
}

#[test]
fn cache_limit_bounds() {
    let gib: u64 = 1024 * 1024 * 1024;
    assert_eq!(validate_cache_max_size(gib), Ok(()));
    assert_eq!(validate_cache_max_size(100 * gib), Ok(()));
    assert_eq!(validate_cache_max_size(20 * gib), Ok(()));
    assert_eq!(validate_cache_max_size(gib - 1), Err(SettingsError::CacheSizeTooSmall { size: gib - 1 }));
    assert_eq!(validate_cache_max_size(0), Err(SettingsError::CacheSizeTooSmall { size: 0 }));
    assert_eq!(
        validate_cache_max_size(100 * gib + 1),
        Err(SettingsError::CacheSizeTooLarge { size: 100 * gib + 1 })
    );
}

#[test]
fn system_info_shows_known_architectures() {
    assert_eq!(get_system_info("linux", "x86_64").arch, "x64");
    assert_eq!(get_system_info("macos", "aarch64").arch, "ARM64");
    assert_eq!(get_system_info("linux", "arm").arch, "ARM");
    assert_eq!(get_system_info("linux", "x86").arch, "x86");
    assert_eq!(get_system_info("linux", "riscv64").arch, "riscv64");
    assert_eq!(get_system_info("windows", "x86_64").platform, "windows");
}

#[test]
fn last_lines_of_a_log() {
    let lines: Vec<String> = ["a", "b", "c", "d"].iter().map(|s| s.to_string()).collect();
    assert_eq!(read_last_lines(&lines, 2), "c\nd");
    assert_eq!(read_last_lines(&lines, 4), "a\nb\nc\nd");
    assert_eq!(read_last_lines(&lines, 10), "a\nb\nc\nd");
    assert_eq!(read_last_lines(&lines, 1), "d");
    assert_eq!(read_last_lines(&lines, 0), "");
    assert_eq!(read_last_lines(&Vec::new(), 3), "");
    assert!(!is_large_log(5 * 1024 * 1024));
    assert!(is_large_log(5 * 1024 * 1024 + 1));
}

#[test]
fn upload_result_takes_the_key_from_the_address() {
    let result = upload_result("  https://paste.armbian.com/abcdef\n");
    assert_eq!(result.url, "https://paste.armbian.com/abcdef");
    assert_eq!(result.key, "abcdef");
    let result = upload_result("nokey");
    assert_eq!(result.url, "nokey");
    assert_eq!(result.key, "nokey");
    let result = upload_result("https://paste.armbian.com/");
    assert_eq!(result.key, "");
}

#[test]
fn progress_snapshots() {
    let mut download = DownloadState::new();
    download.total_bytes = 200;
    download.downloaded_bytes = 50;
    download.is_verifying_sha = true;
    download.error = Some("e".to_string());
    let snapshot = get_download_progress(&download);
    assert_eq!(snapshot.total_bytes, 200);
    assert_eq!(snapshot.downloaded_bytes, 50);
    assert!(snapshot.is_verifying_sha);
    assert!(!snapshot.is_decompressing);
    assert_eq!(snapshot.progress_percent, 25);
    assert_eq!(snapshot.error, Some("e".to_string()));

    let mut flash = FlashState::new();
    flash.total_bytes = 1000;
    flash.written_bytes = 1000;
    flash.verified_bytes = 333;
    assert_eq!(get_flash_progress(&flash).progress_percent, 100);
    flash.is_verifying = true;
    assert_eq!(get_flash_progress(&flash).progress_percent, 33);
    assert_eq!(get_flash_progress(&FlashState::new()).progress_percent, 0);
}

#[test]
fn percent_is_exact_and_capped() {
    assert_eq!(progress_percent(0, 0), 0);
    assert_eq!(progress_percent(5, 0), 0);
    assert_eq!(progress_percent(1, 3), 33);
    assert_eq!(progress_percent(2, 3), 66);
    assert_eq!(progress_percent(3, 3), 100);
    assert_eq!(progress_percent(9, 3), 100);
    assert_eq!(progress_percent(u64::MAX - 1, u64::MAX), 99);
}

#[test]
fn state_reset_clears_counters_and_keeps_the_rest() {
    let mut state = DownloadState::default();
    state.total_bytes = 9;
    state.downloaded_bytes = 8;
    state.is_verifying_sha = true;
    state.is_decompressing = true;
    state.is_cancelled = true;
    state.error = Some("e".to_string());
    state.output_path = Some("p".to_string());
    state.reset();
    assert_eq!(state.total_bytes, 0);
    assert_eq!(state.downloaded_bytes, 0);
    assert!(!state.is_verifying_sha && !state.is_decompressing && !state.is_cancelled);
    assert_eq!(state.error, Some("e".to_string()));
    assert_eq!(state.output_path, Some("p".to_string()));
}

#[test]
fn text_helpers() {
    assert_eq!(to_decimal(0), "0");
    assert_eq!(to_decimal(7), "7");
    assert_eq!(to_decimal(10), "10");
    assert_eq!(to_decimal(1234567890), "1234567890");
    assert_eq!(to_decimal(u64::MAX), "18446744073709551615");
    assert_eq!(to_hex(&vec![0x00, 0x0f, 0xa5, 0xff]), "000fa5ff");
    assert_eq!(to_hex(&vec![]), "");
    assert_eq!(trim("  a b \t\n"), "a b");
    assert_eq!(trim(" \u{a0}\u{3000} "), "");
    assert_eq!(trim(""), "");
    assert_eq!(trim("x"), "x");
    assert_eq!(replace_all("aXbXXc", "X", "--"), "a--b----c");
    assert_eq!(replace_all("aaa", "aa", "b"), "ba");
    assert_eq!(replace_all("abc", "", "z"), "abc");
    let digits: Vec<char> = "x042".chars().collect();
    assert_eq!(parse_u32(&digits, 1), Some(42));
    assert_eq!(parse_u32(&digits, 0), None);
    assert_eq!(parse_u32(&digits, 4), None);
    for c in ['\t', '\n', '\u{b}', '\u{c}', '\r', ' ', '\u{85}', '\u{a0}', '\u{1680}', '\u{2000}', '\u{200a}', '\u{2028}', '\u{2029}', '\u{202f}', '\u{205f}', '\u{3000}'] {
        assert!(is_whitespace(c) && c.is_whitespace());
    }
    for c in ['a', '0', '\u{8}', '\u{e}', '\u{200b}', '\u{feff}', '\u{1c}'] {
        assert_eq!(is_whitespace(c), c.is_whitespace());
    }
}

#[test]
fn whitespace_is_what_the_standard_library_calls_whitespace() {
    for code in 0u32..0x3100 {
        if let Some(c) = char::from_u32(code) {
            assert_eq!(is_whitespace(c), c.is_whitespace(), "U+{:04X}", code);
        }
    }
}

fn log_file(name: &str, modified: Option<u64>) -> LogFile {
    LogFile { name: name.to_string(), modified }
}

#[test]
fn log_files_are_told_by_their_extension() {
    assert!(is_log_file_name("armbian-imager_20240517_140359.log"));
    assert!(is_log_file_name("a.b.log"));
    assert!(!is_log_file_name("a.LOG"));
    assert!(!is_log_file_name(".log"));
    assert!(!is_log_file_name("log"));
    assert!(!is_log_file_name("a.log.txt"));
    assert!(!is_log_file_name("a.logs"));
}

#[test]
fn old_logs_are_all_but_the_newest() {
    let files = vec![
        log_file("c.log", Some(30)),
        log_file("notes.txt", Some(99)),
        log_file("a.log", Some(10)),
        log_file("unknown.log", None),
        log_file("d.log", Some(40)),
        log_file("b.log", Some(20)),
        log_file("b2.log", Some(20)),
    ];
    assert_eq!(cleanup_old_logs(&files, 0), vec![0, 2, 3, 4, 5, 6]);
    assert_eq!(cleanup_old_logs(&files, 2), vec![2, 3, 5, 6]);
    // of two files of the same time the one listed first counts as newer
    assert_eq!(cleanup_old_logs(&files, 3), vec![2, 3, 6]);
    assert_eq!(cleanup_old_logs(&files, 5), vec![3]);
    assert_eq!(cleanup_old_logs(&files, 6), Vec::<usize>::new());
    assert_eq!(cleanup_old_logs(&files, 10), Vec::<usize>::new());
    assert_eq!(cleanup_old_logs(&Vec::new(), 0), Vec::<usize>::new());
}

#[test]
fn the_log_begins_with_its_opening_messages() {
    let logger = Logger::new(Some("/c/logs/a.log".to_string()));
    let outputs = init(&logger, &Ok(3), &now());
    assert_eq!(outputs.len(), 3);
    let lines: Vec<String> = outputs.into_iter().map(|o| o.unwrap().console.unwrap()).collect();
    assert!(lines[0].ends_with("logger:\x1b[0m Armbian Imager logging initialized"));
    assert!(lines[1].ends_with("Log file: /c/logs/a.log"));
    assert!(lines[2].ends_with("Cleaned up 3 old log files"));
    assert_eq!(init(&logger, &Ok(0), &now()).len(), 2);
    assert_eq!(init(&Logger::new(None), &Ok(0), &now()).len(), 1);
    let outputs = init(&Logger::new(None), &Err("denied".to_string()), &now());
    assert_eq!(outputs.len(), 2);
    let warning = outputs[1].as_ref().unwrap().console.clone().unwrap();
    assert!(warning.contains("\x1b[33m") && warning.ends_with("Failed to cleanup old logs: denied"));
}

#[test]
fn stored_settings_fall_back_to_defaults() {
    let text = StoredValue::Text("dark".to_string());
    let yes = StoredValue::Flag(true);
    let no = StoredValue::Flag(false);
    let number = StoredValue::Number(5);
    assert_eq!(get_theme(Some(&text)), "dark");
    assert_eq!(get_theme(Some(&yes)), "auto");
    assert_eq!(get_theme(None), "auto");
    assert_eq!(get_language(Some(&text)), "dark");
    assert_eq!(get_language(Some(&StoredValue::Other)), "auto");
    assert_eq!(get_language(None), "auto");
    assert!(!get_show_motd(Some(&no)));
    assert!(get_show_motd(Some(&text)));
    assert!(get_show_motd(None));
    assert!(!get_show_updater_modal(Some(&no)));
    assert!(get_show_updater_modal(None));
    assert!(get_developer_mode(Some(&yes)));
    assert!(!get_developer_mode(Some(&number)));
    assert!(!get_developer_mode(None));
    assert!(!get_cache_enabled(Some(&no)));
    assert!(get_cache_enabled(Some(&number)));
    assert!(get_cache_enabled(None));
    assert_eq!(get_cache_max_size(Some(&number)), 5);
    assert_eq!(get_cache_max_size(Some(&text)), 20 * 1024 * 1024 * 1024);
    assert_eq!(get_cache_max_size(None), 20 * 1024 * 1024 * 1024);
}

#[test]
fn lines_are_split_as_the_standard_library_splits_them() {
    for text in ["", "a", "a\n", "a\nb", "a\r\nb\r\n", "\n", "\n\n", "a\r", "a\r\n\rb", "\r\n", "x\n\ny\n"] {
        let expected: Vec<String> = text.lines().map(|l| l.to_string()).collect();
        assert_eq!(split_lines(text), expected, "{:?}", text);
    }
}

#[test]
fn custom_image_is_shown_by_its_name() {
    let info = custom_image_info("/home/u/a.img.xz", Some("a.img.xz"), 77);
    assert_eq!(info.path, "/home/u/a.img.xz");
    assert_eq!(info.name, "a.img.xz");
    assert_eq!(info.size, 77);
    assert_eq!(custom_image_info("/", None, 0).name, "unknown");
}

#[test]
fn uploads_need_content_and_a_good_answer() {
    assert_eq!(check_upload_content("  \n\t "), Err(UploadError::NoContent));
    assert_eq!(check_upload_content(""), Err(UploadError::NoContent));
    assert_eq!(check_upload_content(" x "), Ok(()));
    let uploaded = upload_outcome(200, "https://paste.armbian.com/abc\n").unwrap();
    assert_eq!(uploaded.url, "https://paste.armbian.com/abc");
    assert_eq!(uploaded.key, "abc");
    assert!(matches!(upload_outcome(500, "oops"), Err(UploadError::HttpStatus { status: 500 })));
}

#[test]
fn the_two_newest_earlier_logs_are_uploaded() {
    let files = vec![
        log_file("c.log", Some(30)),
        log_file("current.log", Some(50)),
        log_file("a.log", Some(10)),
        log_file("notes.txt", Some(99)),
        log_file("d.log", Some(40)),
    ];
    assert_eq!(previous_logs(&files, Some("current.log")), vec![4, 0]);
    assert_eq!(previous_logs(&files, None), vec![1, 4]);
    assert_eq!(previous_logs(&files[..2].to_vec_of(), Some("current.log")), vec![0]);
    assert_eq!(previous_logs(&Vec::new(), None), Vec::<usize>::new());
}

trait ToVecOf {
    fn to_vec_of(&self) -> Vec<LogFile>;
}

impl ToVecOf for [LogFile] {
    fn to_vec_of(&self) -> Vec<LogFile> {
        self.iter().map(|f| LogFile { name: f.name.clone(), modified: f.modified }).collect()
    }
}

#[test]
fn test_collect_logs() {
    let header = UploadHeader {
        timestamp: "2024-05-17 14:03:59".to_string(),
        app_version: "1.0.0".to_string(),
        os: "linux".to_string(),
        arch: "x86_64".to_string(),
    };
    // Nothing breaks if no logs exist.
    let content = collect_logs(&header, &None, &Vec::new());
    assert!(content.contains("Armbian Imager Log Upload"));
    assert_eq!(
        content,
        "=== Armbian Imager Log Upload ===\nTimestamp: 2024-05-17 14:03:59\nApp Version: 1.0.0\nOS: linux x86_64\n\nNo current log file available.\n"
    );

    let long: String = (1..=600).map(|i| format!("line {}\n", i)).collect();
    let earlier = vec![
        ReadLog { name: "b.log".to_string(), content: Ok("short\nlog".to_string()) },
        ReadLog { name: "a.log".to_string(), content: Ok(long) },
        ReadLog { name: "x.log".to_string(), content: Err("denied".to_string()) },
    ];
    let content = collect_logs(&header, &Some(Ok("now\n".to_string())), &earlier);
    let mut expected = String::from(
        "=== Armbian Imager Log Upload ===\nTimestamp: 2024-05-17 14:03:59\nApp Version: 1.0.0\nOS: linux x86_64\n\n",
    );
    expected.push_str("=== Current Session Log ===\nnow\n");
    expected.push_str("\n=== Previous Log: b.log ===\nshort\nlog");
    expected.push_str("\n=== Previous Log: a.log ===\n... (truncated, showing last 500 of 600 lines)\n");
    for i in 101..=600 {
        expected.push_str(&format!("line {}\n", i));
    }
    expected.push_str("\n=== Previous Log: x.log ===\nError reading log file: denied\n");
    assert_eq!(content, expected);

    let content = collect_logs(&header, &Some(Err("gone".to_string())), &Vec::new());
    assert!(content.ends_with("=== Current Session Log ===\nError reading log file: gone\n"));
}

#[test]
fn urls_are_opened_by_the_systems_opener() {
    let env = vec![
        EnvValue { name: "DISPLAY".to_string(), value: ":0".to_string() },
        EnvValue { name: "XAUTHORITY".to_string(), value: "/run/x".to_string() },
    ];
    let shown = |platform, user: Option<&str>| -> Vec<Vec<String>> {
        open_url_commands(platform, "https://a", user, &env)
            .into_iter()
            .map(|c| std::iter::once(c.program).chain(c.args).collect())
            .collect()
    };
    assert_eq!(shown(Platform::MacOs, Some("u")), vec![vec!["open", "https://a"]]);
    assert_eq!(shown(Platform::Windows, None), vec![vec!["cmd", "/c", "start", "", "https://a"]]);
    assert_eq!(shown(Platform::Linux, None), vec![vec!["xdg-open", "https://a"]]);
    assert_eq!(
        shown(Platform::Linux, Some("alice")),
        vec![
            vec!["runuser", "-u", "alice", "--", "env", "DISPLAY=:0", "XAUTHORITY=/run/x", "xdg-open", "https://a"],
            vec!["pkexec", "--user", "alice", "xdg-open", "https://a"],
            vec!["xdg-open", "https://a"],
        ]
    );
}

fn picture(cached_at: i64) -> CacheEntry {
    CacheEntry { etag: Some("e".to_string()), last_modified: None, file_path: "p".to_string(), cached_at }
}

#[test]
fn board_pictures_are_cached_for_a_week() {
    let week: i64 = 7 * 24 * 60 * 60;
    assert!(!is_expired(1000 + week, 1000));
    assert!(is_expired(1001 + week, 1000));
    assert!(!is_expired(0, 1000));
    assert!(is_expired(i64::MAX, i64::MIN));
    assert!(!is_expired(i64::MIN, i64::MAX));

    let mut cache = ImageCache::new("/c/board_images".to_string());
    assert_eq!(cache.get_cache_dir(), "/c/board_images");
    assert_eq!(cache.get_cached_path("rock-5b"), "/c/board_images/rock-5b.png");
    assert!(cache.get_entry("rock-5b").is_none());
    assert_eq!(get_cached_image_path(&cache, "rock-5b", true, 5000), None);
    cache.set_entry("rock-5b".to_string(), picture(1000));
    cache.set_entry("other".to_string(), picture(7));
    assert_eq!(cache.get_entry("rock-5b").unwrap().cached_at, 1000);
    assert_eq!(
        get_cached_image_path(&cache, "rock-5b", true, 1000 + week),
        Some("/c/board_images/rock-5b.png".to_string())
    );
    assert_eq!(get_cached_image_path(&cache, "rock-5b", true, 1001 + week), None);
    assert_eq!(get_cached_image_path(&cache, "rock-5b", false, 1000), None);
    cache.set_entry("rock-5b".to_string(), picture(2000));
    assert_eq!(cache.get_entry("rock-5b").unwrap().cached_at, 2000);
    assert_eq!(cache.get_entry("other").unwrap().cached_at, 7);
    assert_eq!(cache.entries.len(), 2);
    assert_eq!(get_cache_stats(&cache, &vec![10, 20, 12]), (2, 42));
    assert_eq!(get_cache_stats(&cache, &vec![u64::MAX, 1]), (2, u64::MAX));
    assert_eq!(get_cache_stats(&cache, &vec![]), (2, 0));
}

#[test]
fn board_picture_requests() {
    assert_eq!(board_image_url("rock-5b"), "https://cache.armbian.com/images/272/rock-5b.png");
    assert_eq!(classify_answer(304), PictureAnswer::NotModified);
    assert_eq!(classify_answer(404), PictureAnswer::NotFound);
    assert_eq!(classify_answer(500), PictureAnswer::Failed { status: 500 });
    assert_eq!(classify_answer(301), PictureAnswer::Failed { status: 301 });
    assert_eq!(classify_answer(200), PictureAnswer::Fresh);
    let reports: Vec<String> =
        ["OK:a", "SKIP:b", "ERR:c", "OK:d", "ok:e", "", "SKIP:"].iter().map(|s| s.to_string()).collect();
    assert_eq!(tally_prefetch(&reports), PrefetchTally { downloaded: 2, cached: 2, errors: 3 });
    assert_eq!(tally_prefetch(&Vec::new()), PrefetchTally { downloaded: 0, cached: 0, errors: 0 });
    assert_eq!(
        init_cache(3, 4096),
        vec!["Initializing board image cache".to_string(), "Cache contains 3 images (4096 bytes)".to_string()]
    );
}

#[test]
fn sizes_add_up_and_stop_at_the_largest_number() {
    assert_eq!(total_bytes(&vec![]), 0);
    assert_eq!(total_bytes(&vec![1, 2, 3]), 6);
    assert_eq!(total_bytes(&vec![u64::MAX - 1, 1]), u64::MAX);
    assert_eq!(total_bytes(&vec![u64::MAX, 5, 7]), u64::MAX);
    assert_eq!(get_logs_size(&vec![]), 0);
    assert_eq!(get_logs_size(&vec![100, 250]), 350);
}
