use std::cell::Cell;
use std::cell::RefCell;
use std::io::Write;

use armbian_imager::download::calculate_file_sha256;
use armbian_imager::download::check_download;
use armbian_imager::download::continue_download;
use armbian_imager::download::download_image;
use armbian_imager::download::extract_filename;
use armbian_imager::download::finish_download;
use armbian_imager::download::is_xz_name;
use armbian_imager::download::output_name;
use armbian_imager::download::parse_expected_sha;
use armbian_imager::download::receive_body;
use armbian_imager::download::temp_filename;
use armbian_imager::download::verify_sha256;
use armbian_imager::download::DownloadError;
use armbian_imager::download::DownloadState;
use armbian_imager::flash::verify::MemoryReader;
use armbian_imager::progress::Observer;
use armbian_imager::progress::Stopped;
use armbian_imager::progress::Unattended;
use armbian_imager::store::ImageStore;
use armbian_imager::store::MemoryStore;
use armbian_imager::transport::status_is_success;
use armbian_imager::transport::MemoryTransport;
use armbian_imager::transport::Transport;

const ABC_SHA256: &str = "ba7816bf8f01cfea414140de5dae2223b00361a396177a9cb410ff61f20015ad";
const EMPTY_SHA256: &str = "e3b0c44298fc1c149afbf4c8996fb92427ae41e4649b934ca495991b7852b855";

fn image() -> Vec<u8> {
    (0..3_000_000u32).map(|i| (i % 253) as u8 ^ (i / 4099) as u8).collect()
}

fn xz(data: &[u8]) -> Vec<u8> {
    let mut encoder = liblzma::write::XzEncoder::new(Vec::new(), 0);
    encoder.write_all(data).unwrap();
    encoder.finish().unwrap()
}

fn sha256_hex(data: &[u8]) -> String {
    calculate_file_sha256(&mut MemoryReader::new(data.to_vec()), &mut Unattended::new()).unwrap()
}

struct StopAt {
    poll: Cell<usize>,
    stop_at: usize,
    downloaded: RefCell<Vec<u64>>,
}

impl StopAt {
    fn new(stop_at: usize) -> StopAt {
        StopAt { poll: Cell::new(0), stop_at, downloaded: RefCell::new(Vec::new()) }
    }
}

impl Observer<DownloadState> for StopAt {
    fn is_cancelled(&mut self) -> bool {
        let n = self.poll.get();
        self.poll.set(n + 1);
        n >= self.stop_at
    }

    fn publish(&self, state: &DownloadState) {
        self.downloaded.borrow_mut().push(state.downloaded_bytes);
    }
}

#[test]
fn filename_is_the_last_segment_without_the_query() {
    assert_eq!(extract_filename("https://dl.armbian.com/a/b/Armbian_1.img.xz").unwrap(), "Armbian_1.img.xz");
    assert_eq!(extract_filename("https://h/a/b.img?x=1&y=/z").unwrap(), "b.img");
    assert_eq!(extract_filename("https://h/a/b.img?x?y").unwrap(), "b.img");
    assert_eq!(extract_filename("file.img").unwrap(), "file.img");
    assert_eq!(extract_filename("https://host").unwrap(), "host");
    assert!(matches!(extract_filename("https://h/a/"), Err(DownloadError::InvalidUrl)));
    assert!(matches!(extract_filename("https://h/a/?file=x.img"), Err(DownloadError::InvalidUrl)));
    assert!(matches!(extract_filename(""), Err(DownloadError::InvalidUrl)));
    assert!(matches!(extract_filename("?a"), Err(DownloadError::InvalidUrl)));
}

#[test]
fn names_of_a_download() {
    assert_eq!(output_name("a.img.xz"), "a.img");
    assert_eq!(output_name("a.img.xz.xz"), "a.img.xz");
    assert_eq!(output_name("a.img"), "a.img");
    assert_eq!(output_name("a.img.gz"), "a.img.gz");
    assert_eq!(temp_filename("a.img.xz"), "a.img.xz.downloading");
    assert!(is_xz_name("a.img.xz"));
    assert!(!is_xz_name("a.img.XZ"));
    assert!(!is_xz_name("a.img"));
    assert!(status_is_success(200) && status_is_success(299) && status_is_success(206));
    assert!(!status_is_success(199) && !status_is_success(300) && !status_is_success(404));
}

#[test]
fn digest_file_is_read_by_its_first_word() {
    let upper = ABC_SHA256.to_uppercase();
    assert_eq!(parse_expected_sha(&format!("{}  file.img\n", ABC_SHA256)).unwrap(), ABC_SHA256);
    assert_eq!(parse_expected_sha(&format!("{} *file.img", ABC_SHA256)).unwrap(), ABC_SHA256);
    assert_eq!(parse_expected_sha(&format!("\n\t {}\n", upper)).unwrap(), ABC_SHA256);
    assert_eq!(parse_expected_sha(ABC_SHA256).unwrap(), ABC_SHA256);
    assert!(matches!(parse_expected_sha(""), Err(DownloadError::InvalidShaFile)));
    assert!(matches!(parse_expected_sha(" \n\t"), Err(DownloadError::InvalidShaFile)));
    match parse_expected_sha("ABC file") {
        Err(DownloadError::InvalidShaFormat { hash }) => assert_eq!(hash, "abc"),
        other => panic!("{:?}", other),
    }
    let short = &ABC_SHA256[..63];
    assert!(matches!(parse_expected_sha(short), Err(DownloadError::InvalidShaFormat { .. })));
    let long = format!("{}0", ABC_SHA256);
    assert!(matches!(parse_expected_sha(&long), Err(DownloadError::InvalidShaFormat { .. })));
    let not_hex = format!("{}g", &ABC_SHA256[..63]);
    assert!(matches!(parse_expected_sha(&not_hex), Err(DownloadError::InvalidShaFormat { .. })));
    let other_script = format!("{}\u{0661}", &ABC_SHA256[..63]);
    assert!(matches!(parse_expected_sha(&other_script), Err(DownloadError::InvalidShaFormat { .. })));
}

#[test]
fn sha256_of_known_inputs() {
    assert_eq!(sha256_hex(b"abc"), ABC_SHA256);
    assert_eq!(sha256_hex(b""), EMPTY_SHA256);
    // more than one block of 8 KiB
    let long = vec![b'a'; 1_000_000];
    assert_eq!(sha256_hex(&long), "cdc76e5c9914fb9281a1c7e284d73e67f1809a48a497200e046d39ccc7112cd0");
}

#[test]
fn hashing_can_be_cancelled() {
    let mut observer = StopAt::new(3);
    let result = calculate_file_sha256(&mut MemoryReader::new(vec![0; 100_000]), &mut observer);
    assert!(matches!(result, Err(DownloadError::Cancelled)));
}

#[test]
fn matching_digest_verifies() {
    let body = format!("{}  abc.img\n", ABC_SHA256);
    assert!(verify_sha256(&mut MemoryReader::new(b"abc".to_vec()), &body, &mut Unattended::new()).is_ok());
    let upper = format!("{} *abc.img\n", ABC_SHA256.to_uppercase());
    assert!(verify_sha256(&mut MemoryReader::new(b"abc".to_vec()), &upper, &mut Unattended::new()).is_ok());
}

#[test]
fn any_changed_digit_fails_verification() {
    for at in 0..64 {
        let mut digest: Vec<char> = ABC_SHA256.chars().collect();
        digest[at] = if digest[at] == '0' { '1' } else { '0' };
        let body = format!("{}  abc.img\n", digest.iter().collect::<String>());
        let result = verify_sha256(&mut MemoryReader::new(b"abc".to_vec()), &body, &mut Unattended::new());
        match result {
            Err(DownloadError::ShaMismatch { expected, actual }) => {
                assert_eq!(actual, ABC_SHA256);
                assert_ne!(expected, actual);
            }
            other => panic!("digit {}: {:?}", at, other),
        }
    }
    // a digit turned into something that is no digit
    for (at, c) in [(0, ' '), (10, ' '), (63, 'x'), (5, '-')] {
        let mut digest: Vec<char> = ABC_SHA256.chars().collect();
        digest[at] = c;
        let body = format!("{}  abc.img\n", digest.iter().collect::<String>());
        let result = verify_sha256(&mut MemoryReader::new(b"abc".to_vec()), &body, &mut Unattended::new());
        assert!(matches!(result, Err(DownloadError::InvalidShaFormat { .. })), "{} {:?}", at, c);
    }
    // the file is what differs
    let body = format!("{}  abc.img\n", ABC_SHA256);
    let result = verify_sha256(&mut MemoryReader::new(b"abd".to_vec()), &body, &mut Unattended::new());
    assert!(matches!(result, Err(DownloadError::ShaMismatch { .. })));
}

#[test]
fn receive_body_streams_into_the_temporary_file() {
    let data = image();
    let mut store = MemoryStore::new();
    let mut state = DownloadState::new();
    let mut observer = StopAt::new(usize::MAX);
    receive_body(&mut MemoryReader::new(data.clone()), &mut store, "t.downloading", &mut state, &mut observer).unwrap();
    assert_eq!(store.get("t.downloading"), Some(data));
    assert_eq!(state.downloaded_bytes, 3_000_000);
    let seen = observer.downloaded.borrow();
    assert_eq!(*seen, vec![1 << 20, 2 << 20, 3_000_000]);
}

fn served(sha: Option<String>, body: Vec<u8>, name: &str) -> MemoryTransport {
    let mut transport = MemoryTransport::new();
    transport.serve(&format!("https://dl.example/images/{}", name), 200, body, "");
    if let Some(text) = sha {
        transport.serve(&format!("https://dl.example/images/{}.sha", name), 200, Vec::new(), &text);
    }
    transport
}

#[test]
fn plain_download_lands_under_its_name() {
    let data = image();
    let mut transport = served(None, data.clone(), "board.img");
    let mut store = MemoryStore::new();
    let mut state = DownloadState::new();
    state.error = Some("old".to_string());
    let name = download_image(
        "https://dl.example/images/board.img?mirror=eu",
        None,
        &mut store,
        &mut transport,
        &mut state,
        &mut Unattended::new(),
    );
    // the query is part of the address that is asked for
    assert!(matches!(name, Err(DownloadError::Connect { .. })));
    let name =
        download_image("https://dl.example/images/board.img", None, &mut store, &mut transport, &mut state, &mut Unattended::new())
            .unwrap();
    assert_eq!(name, "board.img");
    assert_eq!(store.get("board.img"), Some(data));
    assert!(!store.contains("board.img.downloading"));
    assert_eq!(state.total_bytes, 3_000_000);
    assert_eq!(state.downloaded_bytes, 3_000_000);
    assert_eq!(state.output_path, Some("board.img".to_string()));
    assert_eq!(state.error, Some("old".to_string()));
    assert!(!state.is_decompressing);
}

#[test]
fn xz_download_is_verified_and_decoded() {
    let data = image();
    let packed = xz(&data);
    let digest = sha256_hex(&packed);
    let mut transport = served(Some(format!("{}  board.img.xz\n", digest)), packed, "board.img.xz");
    let mut store = MemoryStore::new();
    let mut state = DownloadState::new();
    let name = download_image(
        "https://dl.example/images/board.img.xz",
        Some("https://dl.example/images/board.img.xz.sha"),
        &mut store,
        &mut transport,
        &mut state,
        &mut Unattended::new(),
    )
    .unwrap();
    assert_eq!(name, "board.img");
    assert_eq!(store.get("board.img"), Some(data));
    assert!(!store.contains("board.img.xz.downloading"));
    assert!(!store.contains("board.img.xz"));
    assert!(!state.is_verifying_sha);
    assert!(!state.is_decompressing);
}

#[test]
fn cached_image_is_returned_without_a_request() {
    let mut store = MemoryStore::new();
    store.put("board.img", vec![1, 2, 3]);
    let mut transport = MemoryTransport::new();
    let mut state = DownloadState::new();
    let name = download_image(
        "https://dl.example/images/board.img.xz",
        Some("https://dl.example/images/board.img.xz.sha"),
        &mut store,
        &mut transport,
        &mut state,
        &mut Unattended::new(),
    )
    .unwrap();
    assert_eq!(name, "board.img");
    assert_eq!(store.get("board.img"), Some(vec![1, 2, 3]));
    assert_eq!(state.output_path, Some("board.img".to_string()));
    assert_eq!(state.downloaded_bytes, 0);
}

#[test]
fn cancelled_download_leaves_no_file_behind() {
    let data = image();
    let packed = xz(&data);
    let digest = sha256_hex(&packed);
    // stop at every point at which the download asks
    let mut stop_at = 0;
    loop {
        let mut transport = served(Some(format!("{}  board.img.xz\n", digest)), packed.clone(), "board.img.xz");
        let mut store = MemoryStore::new();
        store.put("bystander", vec![7]);
        let mut state = DownloadState::new();
        let mut observer = StopAt::new(stop_at);
        let result = download_image(
            "https://dl.example/images/board.img.xz",
            Some("https://dl.example/images/board.img.xz.sha"),
            &mut store,
            &mut transport,
            &mut state,
            &mut observer,
        );
        if result.is_ok() {
            assert!(stop_at > 5);
            break;
        }
        assert!(matches!(result, Err(DownloadError::Cancelled)), "stop at {}: {:?}", stop_at, result);
        assert!(state.is_cancelled);
        assert!(!store.contains("board.img"), "stop at {}", stop_at);
        assert!(!store.contains("board.img.xz.downloading"), "stop at {}", stop_at);
        assert_eq!(store.get("bystander"), Some(vec![7]));
        assert_eq!(state.output_path, None);
        stop_at += 1;
    }
}

#[test]
fn wrong_digest_fails_the_download_and_removes_the_temporary_file() {
    let data = image();
    let digest = sha256_hex(&data);
    for at in [0usize, 31, 63] {
        let mut changed: Vec<char> = digest.chars().collect();
        changed[at] = if changed[at] == 'f' { 'e' } else { 'f' };
        let text = format!("{}  board.img\n", changed.iter().collect::<String>());
        let mut transport = served(Some(text), data.clone(), "board.img");
        let mut store = MemoryStore::new();
        let mut state = DownloadState::new();
        let result = download_image(
            "https://dl.example/images/board.img",
            Some("https://dl.example/images/board.img.sha"),
            &mut store,
            &mut transport,
            &mut state,
            &mut Unattended::new(),
        );
        assert!(matches!(result, Err(DownloadError::ShaMismatch { .. })), "{:?}", result);
        assert!(!store.contains("board.img.downloading"));
        assert!(!store.contains("board.img"));
        assert!(!state.is_verifying_sha);
    }
}

#[test]
fn digest_file_that_cannot_be_had_fails_the_download_and_keeps_the_file() {
    let data = image();
    let mut transport = served(None, data.clone(), "board.img");
    let mut store = MemoryStore::new();
    let mut state = DownloadState::new();
    let result = download_image(
        "https://dl.example/images/board.img",
        Some("https://dl.example/images/board.img.sha"),
        &mut store,
        &mut transport,
        &mut state,
        &mut Unattended::new(),
    );
    assert!(matches!(result, Err(DownloadError::ShaFetch { .. })));
    assert_eq!(store.get("board.img.downloading"), Some(data.clone()));
    assert!(!store.contains("board.img"));
    assert!(!state.is_verifying_sha);

    let mut transport = served(None, data.clone(), "board.img");
    transport.serve("https://dl.example/images/board.img.sha", 404, Vec::new(), "not found");
    let result = download_image(
        "https://dl.example/images/board.img",
        Some("https://dl.example/images/board.img.sha"),
        &mut store,
        &mut transport,
        &mut state,
        &mut Unattended::new(),
    );
    assert!(matches!(result, Err(DownloadError::ShaStatus { status: 404 })));
    assert_eq!(store.get("board.img.downloading"), Some(data.clone()));

    // the user chooses to go on with the unverified file
    let name = continue_download("https://dl.example/images/board.img", &mut store, &mut state, &mut Unattended::new()).unwrap();
    assert_eq!(name, "board.img");
    assert_eq!(store.get("board.img"), Some(data));
    assert!(!store.contains("board.img.downloading"));
    assert_eq!(state.output_path, Some("board.img".to_string()));
}

#[test]
fn cancelling_while_the_digest_file_cannot_be_had_removes_the_file() {
    let data = image();
    let mut transport = served(None, data, "board.img");
    let mut store = MemoryStore::new();
    let mut state = DownloadState::new();
    // the body takes four polls, hashing one, and the poll after the
    // failed comparison finds the request to stop
    let mut observer = StopAt::new(5);
    let result = download_image(
        "https://dl.example/images/board.img",
        Some("https://dl.example/images/board.img.sha"),
        &mut store,
        &mut transport,
        &mut state,
        &mut observer,
    );
    assert!(matches!(result, Err(DownloadError::Cancelled)), "{:?}", result);
    assert!(!store.contains("board.img.downloading"));
}

#[test]
fn continuing_a_download() {
    let data = image();
    let packed = xz(&data);
    let mut store = MemoryStore::new();
    let mut state = DownloadState::new();
    // nothing was downloaded
    let result = continue_download("https://h/board.img.xz", &mut store, &mut state, &mut Unattended::new());
    assert!(matches!(result, Err(DownloadError::NothingToContinue)));
    assert!(matches!(
        continue_download("https://h/dir/", &mut store, &mut state, &mut Unattended::new()),
        Err(DownloadError::InvalidUrl)
    ));
    // an xz download is decoded
    store.put("board.img.xz.downloading", packed);
    let name = continue_download("https://h/board.img.xz?x=1", &mut store, &mut state, &mut Unattended::new()).unwrap();
    assert_eq!(name, "board.img");
    assert_eq!(store.get("board.img"), Some(data.clone()));
    assert!(!store.contains("board.img.xz.downloading"));
    assert!(!state.is_decompressing);
    // what is there already is returned as it is
    store.put("board.img.xz.downloading", vec![1, 2, 3]);
    let name = continue_download("https://h/board.img.xz", &mut store, &mut state, &mut Unattended::new()).unwrap();
    assert_eq!(name, "board.img");
    assert_eq!(store.get("board.img"), Some(data));
    assert!(store.contains("board.img.xz.downloading"));
}

#[test]
fn finishing_a_download() {
    let mut store = MemoryStore::new();
    let mut state = DownloadState::new();
    store.put("a.img.downloading", vec![1, 2, 3]);
    assert_eq!(finish_download("a.img", &mut store, &mut state, &mut Unattended::new()).unwrap(), "a.img");
    assert_eq!(store.get("a.img"), Some(vec![1, 2, 3]));
    assert!(!store.contains("a.img.downloading"));
    assert!(!state.is_decompressing);
    assert!(matches!(
        finish_download("b.img", &mut store, &mut state, &mut Unattended::new()),
        Err(DownloadError::Move { .. })
    ));
    store.put("c.img.xz.downloading", vec![1, 2, 3]);
    assert!(matches!(
        finish_download("c.img.xz", &mut store, &mut state, &mut Unattended::new()),
        Err(DownloadError::Decompress { .. })
    ));
    assert!(!store.contains("c.img"));
    store.put("d.img.xz.downloading", xz(&[5, 6, 7]));
    let result = finish_download("d.img.xz", &mut store, &mut state, &mut StopAt::new(0));
    assert!(matches!(result, Err(DownloadError::Cancelled)));
    assert!(!store.contains("d.img") && !store.contains("d.img.xz.downloading"));
    assert!(state.is_cancelled);
}

#[test]
fn server_errors_and_bad_addresses() {
    let mut transport = MemoryTransport::new();
    transport.serve("https://dl.example/gone.img", 404, b"no".to_vec(), "no");
    let mut store = MemoryStore::new();
    let mut state = DownloadState::new();
    let result = download_image("https://dl.example/gone.img", None, &mut store, &mut transport, &mut state, &mut Unattended::new());
    assert!(matches!(result, Err(DownloadError::HttpStatus { status: 404 })));
    assert!(!store.contains("gone.img") && !store.contains("gone.img.downloading"));
    let result = download_image("https://dl.example/dir/", None, &mut store, &mut transport, &mut state, &mut Unattended::new());
    assert!(matches!(result, Err(DownloadError::InvalidUrl)));
    let result = download_image("https://nowhere/x.img", None, &mut store, &mut transport, &mut state, &mut Unattended::new());
    assert!(matches!(result, Err(DownloadError::Connect { .. })));
}

#[test]
fn damaged_xz_download_is_a_decompression_failure() {
    let mut packed = xz(&image());
    let n = packed.len();
    packed.truncate(n / 2);
    let mut transport = served(None, packed, "board.img.xz");
    let mut store = MemoryStore::new();
    let mut state = DownloadState::new();
    let result =
        download_image("https://dl.example/images/board.img.xz", None, &mut store, &mut transport, &mut state, &mut Unattended::new());
    assert!(matches!(result, Err(DownloadError::Decompress { .. })), "{:?}", result);
    assert!(!store.contains("board.img"));
}

#[test]
fn check_download_on_its_own() {
    let data = b"abc".to_vec();
    let mut store = MemoryStore::new();
    store.put("t", data);
    let mut transport = MemoryTransport::new();
    transport.serve("u", 200, Vec::new(), &format!("{}  t\n", ABC_SHA256));
    transport.serve("bad", 200, Vec::new(), &format!("{}  t\n", EMPTY_SHA256));
    assert!(check_download(&store, &mut transport, "t", "u", &mut Unattended::new()).is_ok());
    assert!(matches!(
        check_download(&store, &mut transport, "t", "bad", &mut Unattended::new()),
        Err(DownloadError::ShaMismatch { .. })
    ));
    assert!(matches!(
        check_download(&store, &mut transport, "missing", "u", &mut Unattended::new()),
        Err(DownloadError::FileRead { .. })
    ));
    assert!(matches!(check_download(&store, &mut transport, "t", "u", &mut StopAt::new(0)), Err(DownloadError::Cancelled)));
}

#[test]
fn memory_transport_serves_the_first_page_of_a_url() {
    let mut transport = MemoryTransport::new();
    assert!(transport.get("u").is_err());
    transport.serve("u", 200, vec![1, 2], "first");
    transport.serve("u", 500, vec![3], "second");
    let response = transport.get("u").unwrap();
    assert_eq!(response.status, 200);
    assert_eq!(response.content_length, Some(2));
    let text = transport.get_text("u").unwrap();
    assert_eq!(text.status, 200);
    assert_eq!(text.text, "first");
}

#[test]
fn the_numbers_shown_of_a_download_never_run_backwards() {
    let data = image();
    let sha = format!("{}  board.img.xz\n", sha256_hex(&xz(&data)));
    let mut transport = served(Some(sha), xz(&data), "board.img.xz");
    let mut store = MemoryStore::new();
    let mut state = DownloadState::new();
    state.downloaded_bytes = 77;
    let mut observer = StopAt::new(usize::MAX);
    download_image(
        "https://dl.example/images/board.img.xz",
        Some("https://dl.example/images/board.img.xz.sha"),
        &mut store,
        &mut transport,
        &mut state,
        &mut observer,
    )
    .unwrap();
    let shown = observer.downloaded.borrow();
    assert_eq!(shown[0], 0);
    assert!(shown.len() > 3);
    assert!(shown.windows(2).all(|pair| pair[0] <= pair[1]));
    assert_eq!(*shown.last().unwrap(), state.downloaded_bytes);
    assert_eq!(state.downloaded_bytes as usize, xz(&data).len());
}

#[test]
fn a_standing_stop_request_ends_a_download_and_leaves_nothing() {
    let data = image();
    for name in ["board.img", "board.img.xz"] {
        let body = if name.ends_with(".xz") { xz(&data) } else { data.clone() };
        let mut transport = served(None, body, name);
        let mut store = MemoryStore::new();
        store.put("other.img", vec![1, 2, 3]);
        let mut state = DownloadState::new();
        let result =
            download_image(&format!("https://dl.example/images/{}", name), None, &mut store, &mut transport, &mut state, &mut Stopped::new());
        assert!(matches!(result, Err(DownloadError::Cancelled)));
        assert_eq!(result.unwrap_err().message(), "Download cancelled");
        assert!(state.is_cancelled);
        assert!(!state.is_verifying_sha);
        assert!(!store.contains("board.img"));
        assert!(!store.contains(&temp_filename(name)));
        assert_eq!(store.get("other.img"), Some(vec![1, 2, 3]));
        assert!(store.uses().is_empty());
    }
    assert!(matches!(receive_body(&mut MemoryReader::new(vec![1; 10]), &mut MemoryStore::new(), "t", &mut DownloadState::new(), &mut Stopped::new()), Err(DownloadError::Cancelled)));
    assert!(matches!(calculate_file_sha256(&mut MemoryReader::new(vec![1; 10]), &mut Stopped::new()), Err(DownloadError::Cancelled)));
}

#[test]
fn a_hit_counts_as_a_use_and_nothing_else_does() {
    let data = image();
    let mut transport = served(None, data.clone(), "board.img");
    let mut store = MemoryStore::new();
    let mut state = DownloadState::new();
    let url = "https://dl.example/images/board.img";
    // a miss: the image is fetched, and no use is noted
    download_image(url, None, &mut store, &mut transport, &mut state, &mut Unattended::new()).unwrap();
    assert!(store.uses().is_empty());
    // a hit: the use is noted, even with a request to stop standing, and
    // with a transport that serves nothing
    let mut nothing = MemoryTransport::new();
    let name = download_image(url, None, &mut store, &mut nothing, &mut state, &mut Stopped::new()).unwrap();
    assert_eq!(name, "board.img");
    assert_eq!(*store.uses(), vec!["board.img".to_string()]);
    assert_eq!(state.total_bytes, 0);
    assert_eq!(state.downloaded_bytes, 0);
    download_image(url, None, &mut store, &mut nothing, &mut state, &mut Unattended::new()).unwrap();
    assert_eq!(*store.uses(), vec!["board.img".to_string(), "board.img".to_string()]);
    assert_eq!(store.get("board.img"), Some(data));
}

#[test]
fn the_verifying_flag_is_down_after_a_failed_digest_check() {
    let data = image();
    let wrong = format!("{}  board.img\n", ABC_SHA256);
    let mut transport = served(Some(wrong), data, "board.img");
    let mut store = MemoryStore::new();
    let mut state = DownloadState::new();
    let result = download_image(
        "https://dl.example/images/board.img",
        Some("https://dl.example/images/board.img.sha"),
        &mut store,
        &mut transport,
        &mut state,
        &mut Unattended::new(),
    );
    match result {
        Err(DownloadError::ShaMismatch { expected, actual }) => {
            assert_eq!(expected, ABC_SHA256);
            assert_eq!(actual.len(), 64);
        }
        other => panic!("unexpected: {:?}", other),
    }
    assert!(!state.is_verifying_sha);
    assert!(!store.contains("board.img"));
    assert!(!store.contains("board.img.downloading"));
}

#[test]
fn a_download_requests_each_file_once_and_a_hit_requests_nothing() {
    let data = image();
    let url = "https://dl.example/images/board.img";
    let sha_url = "https://dl.example/images/board.img.sha";
    let sha = format!("{}  board.img\n", sha256_hex(&data));
    let mut transport = served(Some(sha), data.clone(), "board.img");
    let mut store = MemoryStore::new();
    let mut state = DownloadState::new();
    download_image(url, Some(sha_url), &mut store, &mut transport, &mut state, &mut Unattended::new()).unwrap();
    assert_eq!(*transport.requests(), vec![url.to_string(), sha_url.to_string()]);
    // the image is there now: nothing more is requested
    download_image(url, Some(sha_url), &mut store, &mut transport, &mut state, &mut Unattended::new()).unwrap();
    assert_eq!(transport.requests().len(), 2);

    // a digest that does not match: one request each, and no second try
    let wrong = format!("{}  board.img\n", ABC_SHA256);
    let mut transport = served(Some(wrong), data.clone(), "board.img");
    let mut store = MemoryStore::new();
    let result = download_image(url, Some(sha_url), &mut store, &mut transport, &mut state, &mut Unattended::new());
    assert!(matches!(result, Err(DownloadError::ShaMismatch { .. })));
    assert_eq!(*transport.requests(), vec![url.to_string(), sha_url.to_string()]);

    // without a digest file, and with a request to stop standing
    let mut transport = served(None, data, "board.img");
    let mut store = MemoryStore::new();
    download_image(url, None, &mut store, &mut transport, &mut state, &mut Unattended::new()).unwrap();
    assert_eq!(*transport.requests(), vec![url.to_string()]);
    let mut store = MemoryStore::new();
    let stopped = download_image(url, Some(sha_url), &mut store, &mut transport, &mut state, &mut Stopped::new());
    assert!(matches!(stopped, Err(DownloadError::Cancelled)));
    assert_eq!(*transport.requests(), vec![url.to_string(), url.to_string()]);
    // a URL that names no file is not requested
    let invalid = download_image("https://dl.example/images/", None, &mut store, &mut transport, &mut state, &mut Unattended::new());
    assert!(matches!(invalid, Err(DownloadError::InvalidUrl)));
    assert_eq!(transport.requests().len(), 2);
}

/// Notes the numbers that it is shown and counts the questions it is asked.
struct Watching {
    asked: usize,
    stop_at: usize,
    shown: RefCell<Vec<(u64, u64)>>,
}

impl Watching {
    fn new(stop_at: usize) -> Watching {
        Watching { asked: 0, stop_at, shown: RefCell::new(Vec::new()) }
    }
}

impl Observer<DownloadState> for Watching {
    fn is_cancelled(&mut self) -> bool {
        self.asked += 1;
        self.asked > self.stop_at
    }

    fn publish(&self, state: &DownloadState) {
        self.shown.borrow_mut().push((state.total_bytes, state.downloaded_bytes));
    }
}

#[test]
fn a_download_shows_its_progress_chunk_by_chunk() {
    let data = image();
    let url = "https://dl.example/images/board.img";
    let mut transport = served(None, data.clone(), "board.img");
    let mut store = MemoryStore::new();
    let mut state = DownloadState::new();
    let mut observer = Watching::new(usize::MAX);
    download_image(url, None, &mut store, &mut transport, &mut state, &mut observer).unwrap();
    let total = data.len() as u64;
    let mib = 1024 * 1024;
    assert_eq!(
        *observer.shown.borrow(),
        vec![(0, 0), (total, 0), (total, mib), (total, 2 * mib), (total, total), (total, total)]
    );
    // one question before each chunk, and one before the read that finds
    // the end
    assert_eq!(observer.asked, 4);
    assert_eq!((state.total_bytes, state.downloaded_bytes), (total, total));
}

#[test]
fn a_stop_that_comes_while_the_body_arrives_is_obeyed_at_the_next_chunk() {
    let data = image();
    let url = "https://dl.example/images/board.img";
    for stop_at in 0..4 {
        let mut transport = served(None, data.clone(), "board.img");
        let mut store = MemoryStore::new();
        let mut state = DownloadState::new();
        let mut observer = Watching::new(stop_at);
        let result = download_image(url, None, &mut store, &mut transport, &mut state, &mut observer);
        assert!(matches!(result, Err(DownloadError::Cancelled)));
        assert_eq!(result.unwrap_err().message(), "Download cancelled");
        // nothing is asked after the yes, and nothing moved after it
        assert_eq!(observer.asked, stop_at + 1);
        let expected = ((stop_at as u64) * 1024 * 1024).min(data.len() as u64);
        assert_eq!(state.downloaded_bytes, expected);
        assert_eq!(*observer.shown.borrow().last().unwrap(), (data.len() as u64, expected));
        assert!(state.is_cancelled);
        assert!(!store.contains("board.img"));
        assert!(!store.contains("board.img.downloading"));
    }
    // a stop that comes while the digest is computed, or while the image is
    // decoded, is obeyed too
    let packed = xz(&data);
    let sha = format!("{}  board.img.xz\n", sha256_hex(&packed));
    let mut seen_late = 0;
    let mut finished = false;
    for stop_at in 0..2000 {
        let mut transport = served(Some(sha.clone()), packed.clone(), "board.img.xz");
        let mut store = MemoryStore::new();
        let mut state = DownloadState::new();
        let mut observer = Watching::new(stop_at);
        let result = download_image(
            "https://dl.example/images/board.img.xz",
            Some("https://dl.example/images/board.img.xz.sha"),
            &mut store,
            &mut transport,
            &mut state,
            &mut observer,
        );
        match result {
            Err(DownloadError::Cancelled) => {
                assert_eq!(observer.asked, stop_at + 1);
                assert!(!store.contains("board.img"));
                assert!(!store.contains("board.img.xz.downloading"));
                assert!(!state.is_decompressing);
                assert!(!state.is_verifying_sha);
                seen_late = stop_at;
            }
            Ok(name) => {
                assert_eq!(name, "board.img");
                assert!(observer.asked <= stop_at);
                assert_eq!(store.get("board.img"), Some(data.clone()));
                finished = true;
                break;
            }
            Err(other) => panic!("unexpected: {:?}", other),
        }
    }
    assert!(finished);
    assert!(seen_late > 3);
}
