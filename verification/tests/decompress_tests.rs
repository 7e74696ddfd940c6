use std::cell::Cell;
use std::io::Write;

use armbian_imager::decompress::decompress_local_file;
use armbian_imager::decompress::decompress_with_bz2;
use armbian_imager::decompress::decompress_with_format;
use armbian_imager::decompress::decompress_with_gz;
use armbian_imager::decompress::decompress_with_reader;
use armbian_imager::decompress::decompress_with_rust_xz;
use armbian_imager::decompress::decompress_with_system_xz;
use armbian_imager::decompress::decompress_with_zstd;
use armbian_imager::decompress::format_of;
use armbian_imager::decompress::needs_decompression;
use armbian_imager::decompress::output_filename;
use armbian_imager::decompress::CompressionFormat;
use armbian_imager::decompress::DecompressError;
use armbian_imager::download::DownloadState;
use armbian_imager::flash::verify::MemoryReader;
use armbian_imager::flash::verify::VerificationReader;
use armbian_imager::progress::Observer;
use armbian_imager::progress::Stopped;
use armbian_imager::progress::Unattended;
use armbian_imager::store::ImageStore;
use armbian_imager::store::MemoryStore;

fn plain() -> Vec<u8> {
    (0..50_000u32).map(|i| (i % 251) as u8 ^ (i / 977) as u8).collect()
}

fn xz(data: &[u8]) -> Vec<u8> {
    let mut encoder = liblzma::write::XzEncoder::new(Vec::new(), 1);
    encoder.write_all(data).unwrap();
    encoder.finish().unwrap()
}

fn gz(data: &[u8]) -> Vec<u8> {
    let mut encoder = flate2::write::GzEncoder::new(Vec::new(), flate2::Compression::fast());
    encoder.write_all(data).unwrap();
    encoder.finish().unwrap()
}

fn bz2(data: &[u8]) -> Vec<u8> {
    let mut encoder = bzip2::write::BzEncoder::new(Vec::new(), bzip2::Compression::fast());
    encoder.write_all(data).unwrap();
    encoder.finish().unwrap()
}

fn zst(data: &[u8]) -> Vec<u8> {
    zstd::stream::encode_all(data, 1).unwrap()
}

struct StopAt {
    poll: Cell<usize>,
    stop_at: usize,
}

impl Observer<DownloadState> for StopAt {
    fn is_cancelled(&mut self) -> bool {
        let n = self.poll.get();
        self.poll.set(n + 1);
        n >= self.stop_at
    }

    fn publish(&self, _state: &DownloadState) {}
}

#[test]
fn needs_decompression_by_extension() {
    for path in ["a.xz", "a.gz", "a.bz2", "a.zst", "/x/y/image.img.xz", "A.XZ", "a.Gz", "a.BZ2", "a.ZsT", "dir.d/a.xz"] {
        assert!(needs_decompression(path), "{}", path);
    }
    for path in [
        "", "a", "a.img", "a.iso", "xz", ".xz", "/x/.gz", "a.xz/", "a.xz/b", "a.xz.img", "a.", "a.x", "a.xzz", "a.zstd",
        "a.bz", "dir.xz/file", "a.tar", "a.7z",
    ] {
        assert!(!needs_decompression(path), "{}", path);
    }
}

#[test]
fn format_is_told_by_the_suffix_whatever_its_case() {
    assert_eq!(format_of("a.img.xz"), Some(CompressionFormat::Xz));
    assert_eq!(format_of("a.img.gz"), Some(CompressionFormat::Gz));
    assert_eq!(format_of("a.img.bz2"), Some(CompressionFormat::Bz2));
    assert_eq!(format_of("a.img.zst"), Some(CompressionFormat::Zstd));
    assert_eq!(format_of(".xz"), Some(CompressionFormat::Xz));
    assert_eq!(format_of("a.img"), None);
    assert_eq!(format_of("a.XZ"), Some(CompressionFormat::Xz));
    assert_eq!(format_of("a.img.Gz"), Some(CompressionFormat::Gz));
    assert_eq!(format_of("a.img.BZ2"), Some(CompressionFormat::Bz2));
    assert_eq!(format_of("a.img.ZsT"), Some(CompressionFormat::Zstd));
    assert_eq!(format_of("a.img.gz.xz"), Some(CompressionFormat::Xz));
    assert_eq!(format_of(""), None);
    assert_eq!(format_of("xz"), None);
}

#[test]
fn output_name_drops_the_one_compression_suffix() {
    assert_eq!(output_filename("a.img.xz"), "a.img");
    assert_eq!(output_filename("a.img.gz"), "a.img");
    assert_eq!(output_filename("a.img.bz2"), "a.img");
    assert_eq!(output_filename("a.img.zst"), "a.img");
    assert_eq!(output_filename("a.img"), "a.img");
    assert_eq!(output_filename("a.img.xz.xz"), "a.img.xz");
    assert_eq!(output_filename("img.gz.xz"), "img.gz");
    assert_eq!(output_filename("a.zst.bz2.gz.xz"), "a.zst.bz2.gz");
    assert_eq!(output_filename("a.xz.zst"), "a.xz");
    assert_eq!(output_filename(".xz"), "");
    assert_eq!(output_filename(""), "");
    assert_eq!(output_filename("a.XZ"), "a");
    assert_eq!(output_filename("\u{e9}t\u{e9}.img.BZ2"), "\u{e9}t\u{e9}.img");
}

#[test]
fn a_doubly_compressed_file_loses_its_outer_suffix_only() {
    let mut store = MemoryStore::new();
    store.put("img.gz.xz", xz(&gz(&plain())));
    // the file under the name without the one suffix is the result of an
    // earlier run
    store.put("img.gz", vec![7, 7]);
    let mut state = DownloadState::new();
    let name = decompress_local_file(&mut store, "img.gz.xz", &mut state, &mut Unattended::new(), 2).unwrap();
    assert_eq!(name, "img.gz");
    assert_eq!(store.get("img.gz"), Some(vec![7, 7]));
    assert!(!store.contains("img"));

    let mut store = MemoryStore::new();
    store.put("img.gz.xz", xz(&gz(&plain())));
    let mut state = DownloadState::new();
    let name = decompress_local_file(&mut store, "img.gz.xz", &mut state, &mut Unattended::new(), 2).unwrap();
    assert_eq!(name, "img.gz");
    assert_eq!(store.get("img.gz"), Some(gz(&plain())));
    assert_eq!(state.total_bytes, store.size("img.gz.xz").unwrap());
    assert!(!state.is_decompressing);
}

#[test]
fn a_suffix_in_capitals_is_decoded_too() {
    let data = plain();
    let mut store = MemoryStore::new();
    store.put("custom.img.GZ", gz(&data));
    let mut state = DownloadState::new();
    assert!(needs_decompression("custom.img.GZ"));
    let name = decompress_local_file(&mut store, "custom.img.GZ", &mut state, &mut Unattended::new(), 2).unwrap();
    assert_eq!(name, "custom.img");
    assert_eq!(store.get("custom.img"), Some(data));
}

#[test]
fn every_format_is_decoded() {
    let data = plain();
    let mut store = MemoryStore::new();
    store.put("a.xz", xz(&data));
    store.put("a.gz", gz(&data));
    store.put("a.bz2", bz2(&data));
    store.put("a.zst", zst(&data));
    decompress_with_rust_xz(&mut store, "a.xz", "from_xz", &mut Unattended::new()).unwrap();
    decompress_with_gz(&mut store, "a.gz", "from_gz", &mut Unattended::new()).unwrap();
    decompress_with_bz2(&mut store, "a.bz2", "from_bz2", &mut Unattended::new()).unwrap();
    decompress_with_zstd(&mut store, "a.zst", "from_zst", &mut Unattended::new()).unwrap();
    for name in ["from_xz", "from_gz", "from_bz2", "from_zst"] {
        assert_eq!(store.get(name), Some(data.clone()), "{}", name);
    }
    // the compressed files are kept and are not what was stored as output
    assert_ne!(store.get("a.xz"), Some(data.clone()));
    assert_eq!(store.get("a.xz"), Some(xz(&data)));
}

#[test]
fn a_format_does_not_decode_another() {
    let data = plain();
    let mut store = MemoryStore::new();
    store.put("a.gz", gz(&data));
    for format in [CompressionFormat::Xz, CompressionFormat::Bz2, CompressionFormat::Zstd] {
        let result = decompress_with_format(&mut store, "a.gz", "out", format, &mut Unattended::new(), 4096);
        assert!(matches!(result, Err(DecompressError::OpenInput { .. })), "{:?}", format);
        assert!(!store.contains("out"));
    }
}

#[test]
fn damaged_data_is_a_decode_failure() {
    let mut damaged = xz(&plain());
    let middle = damaged.len() / 2;
    damaged[middle] ^= 0xFF;
    damaged.truncate(damaged.len() - 7);
    let mut store = MemoryStore::new();
    store.put("bad.xz", damaged);
    let result = decompress_with_rust_xz(&mut store, "bad.xz", "bad", &mut Unattended::new());
    assert!(matches!(result, Err(DecompressError::OpenInput { .. })));
    let result = decompress_with_rust_xz(&mut store, "missing.xz", "missing", &mut Unattended::new());
    assert!(matches!(result, Err(DecompressError::OpenInput { .. })));
}

#[test]
fn copy_loop_copies_everything_in_chunks() {
    let data = plain();
    let mut store = MemoryStore::new();
    store.put("out", vec![1, 2, 3]);
    let mut reader = MemoryReader::new(data.clone());
    decompress_with_reader(&mut reader, &mut store, "out", &mut Unattended::new(), 4096).unwrap();
    assert_eq!(store.get("out"), Some(data));
    let mut reader = MemoryReader::new(Vec::new());
    decompress_with_reader(&mut reader, &mut store, "empty", &mut Unattended::new(), 4096).unwrap();
    assert_eq!(store.get("empty"), Some(Vec::new()));
    let mut reader = MemoryReader::new(vec![1]);
    assert!(matches!(
        decompress_with_reader(&mut reader, &mut store, "zero", &mut Unattended::new(), 0),
        Err(DecompressError::InvalidChunkSize)
    ));
    assert!(!store.contains("zero"));
}

#[test]
fn cancelling_removes_the_partial_output() {
    let data = plain();
    for stop_at in [0usize, 1, 5] {
        let mut store = MemoryStore::new();
        store.put("other", vec![9]);
        let mut reader = MemoryReader::new(data.clone());
        let mut observer = StopAt { poll: Cell::new(0), stop_at };
        let result = decompress_with_reader(&mut reader, &mut store, "out", &mut observer, 4096);
        assert!(matches!(result, Err(DecompressError::Cancelled)));
        assert!(!store.contains("out"));
        assert_eq!(store.get("other"), Some(vec![9]));
    }
}

#[test]
fn local_file_is_decompressed_next_to_itself() {
    let data = plain();
    let mut store = MemoryStore::new();
    store.put("custom.img.gz", gz(&data));
    let mut state = DownloadState::new();
    let name = decompress_local_file(&mut store, "custom.img.gz", &mut state, &mut Unattended::new(), 2).unwrap();
    assert_eq!(name, "custom.img");
    assert_eq!(store.get("custom.img"), Some(data));
    assert!(store.contains("custom.img.gz"));
    assert!(!state.is_decompressing);
    assert_eq!(state.total_bytes, store.size("custom.img.gz").unwrap());
}

#[test]
fn local_xz_falls_back_to_the_library_decoder() {
    let data = plain();
    let mut store = MemoryStore::new();
    store.put("custom.img.xz", xz(&data));
    let mut state = DownloadState::new();
    let name = decompress_local_file(&mut store, "custom.img.xz", &mut state, &mut Unattended::new(), 2).unwrap();
    assert_eq!(name, "custom.img");
    assert_eq!(store.get("custom.img"), Some(data));
}

#[test]
fn decompressing_twice_does_the_work_once() {
    let data = plain();
    let mut store = MemoryStore::new();
    store.put("custom.img.zst", zst(&data));
    let mut state = DownloadState::new();
    let first = decompress_local_file(&mut store, "custom.img.zst", &mut state, &mut Unattended::new(), 2).unwrap();
    // whatever lies under the output name now is taken as the result
    store.put("custom.img", vec![1, 2, 3]);
    let mut state = DownloadState::new();
    // an observer that would stop at once is never asked
    let mut observer = StopAt { poll: Cell::new(0), stop_at: 0 };
    let second = decompress_local_file(&mut store, "custom.img.zst", &mut state, &mut observer, 2).unwrap();
    assert_eq!(first, second);
    assert_eq!(store.get("custom.img"), Some(vec![1, 2, 3]));
    assert_eq!(observer.poll.get(), 0);
    assert_eq!(state.total_bytes, 0);
    assert!(!state.is_decompressing);
}

#[test]
fn unsupported_extension_is_an_error() {
    let mut store = MemoryStore::new();
    let mut state = DownloadState::new();
    let result = decompress_local_file(&mut store, "image.rar", &mut state, &mut Unattended::new(), 2);
    assert!(matches!(result, Err(DecompressError::Unsupported)));
    assert!(!state.is_decompressing);
    assert_eq!(result.unwrap_err().message(), "Unsupported compression format");
    // also for a file that is there: nothing is created, changed or removed
    store.put("a.img", vec![1]);
    let mut state = DownloadState::new();
    state.total_bytes = 9;
    let result = decompress_local_file(&mut store, "a.img", &mut state, &mut Unattended::new(), 2);
    assert!(matches!(result, Err(DecompressError::Unsupported)));
    assert!(!state.is_decompressing);
    assert_eq!(state.total_bytes, 9);
    assert_eq!(store.get("a.img"), Some(vec![1]));
    assert!(!store.contains(""));
}

#[test]
fn the_flag_is_lowered_after_a_failed_decompression() {
    let mut damaged = xz(&plain());
    let middle = damaged.len() / 2;
    damaged.truncate(middle);
    let mut store = MemoryStore::new();
    store.put("bad.img.xz", damaged.clone());
    let mut state = DownloadState::new();
    let result = decompress_local_file(&mut store, "bad.img.xz", &mut state, &mut Unattended::new(), 2);
    assert!(result.is_err());
    assert!(!state.is_decompressing);
    assert_eq!(state.total_bytes as usize, damaged.len());
    assert_eq!(store.get("bad.img.xz"), Some(damaged));
}

#[test]
fn a_standing_stop_request_ends_every_decompression() {
    let data = plain();
    for (name, packed) in [("c.img.xz", xz(&data)), ("c.img.gz", gz(&data)), ("c.img.bz2", bz2(&data)), ("c.img.zst", zst(&data))] {
        for tool in [false, true] {
            let mut store = if tool { MemoryStore::with_system_tool() } else { MemoryStore::new() };
            store.put(name, packed.clone());
            let mut state = DownloadState::new();
            let result = decompress_local_file(&mut store, name, &mut state, &mut Stopped::new(), 2);
            assert!(matches!(result, Err(DecompressError::Cancelled)));
            assert_eq!(result.unwrap_err().message(), "Decompression cancelled");
            assert!(state.is_cancelled);
            assert!(!state.is_decompressing);
            assert!(!store.contains("c.img"));
            assert_eq!(store.get(name), Some(packed.clone()));
        }
    }
    let mut store = MemoryStore::new();
    let copied = decompress_with_reader(&mut MemoryReader::new(data), &mut store, "out", &mut Stopped::new(), 1024);
    assert!(matches!(copied, Err(DecompressError::Cancelled)));
    assert!(!store.contains("out"));
}

#[test]
fn cancelled_local_decompression_leaves_no_output() {
    let mut store = MemoryStore::new();
    store.put("c.img.xz", xz(&plain()));
    let mut state = DownloadState::new();
    let mut observer = StopAt { poll: Cell::new(0), stop_at: 0 };
    let result = decompress_local_file(&mut store, "c.img.xz", &mut state, &mut observer, 2);
    assert!(matches!(result, Err(DecompressError::Cancelled)));
    assert!(state.is_cancelled);
    assert!(!store.contains("c.img"));
    assert!(store.contains("c.img.xz"));
}

#[test]
fn memory_store_files() {
    let mut store = MemoryStore::new();
    assert!(!store.contains("a"));
    assert_eq!(store.size("a"), None);
    assert!(store.open("a").is_err());
    assert!(store.append("a", &[1]).is_err());
    assert!(!store.remove("a"));
    assert!(store.rename("a", "b").is_err());
    store.create("a").unwrap();
    store.append("a", &[1, 2]).unwrap();
    store.append("a", &[3]).unwrap();
    assert_eq!(store.get("a"), Some(vec![1, 2, 3]));
    assert_eq!(store.size("a"), Some(3));
    store.put("b", vec![9]);
    store.rename("a", "b").unwrap();
    assert!(!store.contains("a"));
    assert_eq!(store.get("b"), Some(vec![1, 2, 3]));
    store.create("b").unwrap();
    assert_eq!(store.get("b"), Some(vec![]));
    assert!(store.remove("b"));
    assert!(!store.contains("b"));
    assert!(store.open_external_xz("a", 1).is_err());
    store.touch("nothing");
}

#[test]
fn the_system_tool_is_used_where_there_is_one() {
    let data = plain();
    let mut store = MemoryStore::with_system_tool();
    store.put("custom.img.xz", xz(&data));
    decompress_with_system_xz(&mut store, "custom.img.xz", "custom.img", &mut Unattended::new(), 4).unwrap();
    assert_eq!(store.get("custom.img"), Some(data.clone()));

    let mut store = MemoryStore::with_system_tool();
    store.put("custom.img.xz", xz(&data));
    let mut state = DownloadState::new();
    let name = decompress_local_file(&mut store, "custom.img.xz", &mut state, &mut Unattended::new(), 4).unwrap();
    assert_eq!(name, "custom.img");
    assert_eq!(store.get("custom.img"), Some(data));
    assert!(!state.is_decompressing);
}

#[test]
fn without_a_system_tool_nothing_is_written() {
    let mut store = MemoryStore::new();
    store.put("custom.img.xz", xz(&plain()));
    let result = decompress_with_system_xz(&mut store, "custom.img.xz", "custom.img", &mut Unattended::new(), 4);
    match result {
        Err(error @ DecompressError::SystemTool { .. }) => {
            assert_eq!(error.message(), "System xz failed: xz command not found")
        }
        other => panic!("unexpected: {:?}", other),
    }
    assert!(!store.contains("custom.img"));
}

#[test]
fn the_system_tool_is_stopped_between_chunks() {
    let mut store = MemoryStore::with_system_tool();
    store.put("c.img.xz", xz(&plain()));
    let mut observer = StopAt { poll: Cell::new(0), stop_at: 0 };
    let result = decompress_with_system_xz(&mut store, "c.img.xz", "c.img", &mut observer, 4);
    assert!(matches!(result, Err(DecompressError::Cancelled)));
    assert!(!store.contains("c.img"));

    let mut state = DownloadState::new();
    let mut observer = StopAt { poll: Cell::new(0), stop_at: 0 };
    let result = decompress_local_file(&mut store, "c.img.xz", &mut state, &mut observer, 4);
    assert!(matches!(result, Err(DecompressError::Cancelled)));
    assert!(state.is_cancelled);
    assert!(!store.contains("c.img"));
    // the library decoder was not tried after the request to stop
    assert_eq!(observer.poll.get(), 1);
}

/// What a store hands out: a file or decoder of the directory, or the
/// output of a tool that breaks off.
enum Source {
    Sound(MemoryReader),
    BreaksOff { left: usize },
}

impl VerificationReader for Source {
    fn read(&mut self, max: usize) -> Result<Vec<u8>, String> {
        match self {
            Source::Sound(reader) => reader.read(max),
            Source::BreaksOff { left } => {
                if *left == 0 {
                    return Err("xz decompression failed".to_string());
                }
                let n = max.min(*left);
                *left -= n;
                Ok(vec![0xCC; n])
            }
        }
    }
}

/// A directory whose system tool puts out some bytes and then fails.
struct FailingTool {
    inner: MemoryStore,
}

impl ImageStore for FailingTool {
    type Reader = Source;

    fn contains(&self, name: &str) -> bool {
        self.inner.contains(name)
    }

    fn size(&self, name: &str) -> Option<u64> {
        self.inner.size(name)
    }

    fn touch(&mut self, name: &str) {
        self.inner.touch(name)
    }

    fn open(&self, name: &str) -> Result<Source, String> {
        self.inner.open(name).map(Source::Sound)
    }

    fn open_decoder(&self, name: &str, format: CompressionFormat) -> Result<Source, String> {
        self.inner.open_decoder(name, format).map(Source::Sound)
    }

    fn open_external_xz(&self, _name: &str, _threads: usize) -> Result<Source, String> {
        Ok(Source::BreaksOff { left: 1000 })
    }

    fn create(&mut self, name: &str) -> Result<(), String> {
        self.inner.create(name)
    }

    fn append(&mut self, name: &str, data: &[u8]) -> Result<(), String> {
        self.inner.append(name, data)
    }

    fn remove(&mut self, name: &str) -> bool {
        self.inner.remove(name)
    }

    fn rename(&mut self, from: &str, to: &str) -> Result<(), String> {
        self.inner.rename(from, to)
    }
}

#[test]
fn a_failing_system_tool_leaves_nothing_and_the_library_takes_over() {
    let data = plain();
    let mut store = FailingTool { inner: MemoryStore::new() };
    store.inner.put("custom.img.xz", xz(&data));
    let result = decompress_with_system_xz(&mut store, "custom.img.xz", "custom.img", &mut Unattended::new(), 4);
    assert!(matches!(result, Err(DecompressError::SystemTool { .. })));
    assert!(!store.contains("custom.img"));

    let mut state = DownloadState::new();
    let name = decompress_local_file(&mut store, "custom.img.xz", &mut state, &mut Unattended::new(), 4).unwrap();
    assert_eq!(name, "custom.img");
    assert_eq!(store.inner.get("custom.img"), Some(data));

    // damaged data: neither the tool nor the library can decode it
    let mut damaged = xz(&plain());
    let middle = damaged.len() / 2;
    damaged.truncate(middle);
    store.inner.put("bad.img.xz", damaged);
    let mut state = DownloadState::new();
    let result = decompress_local_file(&mut store, "bad.img.xz", &mut state, &mut Unattended::new(), 4);
    assert!(matches!(result, Err(DecompressError::OpenInput { .. }) | Err(DecompressError::Decode { .. })));
}

/// Says no a number of times, then yes, and counts the questions.
struct Patient {
    asked: usize,
    stop_at: usize,
}

impl Observer<DownloadState> for Patient {
    fn is_cancelled(&mut self) -> bool {
        self.asked += 1;
        self.asked > self.stop_at
    }

    fn publish(&self, _state: &DownloadState) {
    }
}

#[test]
fn a_stop_that_comes_while_a_file_is_decoded_is_obeyed_at_the_next_chunk() {
    let data = plain();
    let mut reached_the_end = false;
    for stop_at in 0..60 {
        let mut store = MemoryStore::new();
        let mut observer = Patient { asked: 0, stop_at };
        let copied = decompress_with_reader(&mut MemoryReader::new(data.clone()), &mut store, "out", &mut observer, 1000);
        if stop_at <= 50 {
            // 50 chunks of 1000 bytes: each is asked for, and so is the
            // read that finds the end
            assert!(matches!(copied, Err(DecompressError::Cancelled)));
            assert_eq!(observer.asked, stop_at + 1);
            assert!(!store.contains("out"));
        } else {
            assert!(copied.is_ok());
            assert_eq!(observer.asked, 51);
            assert_eq!(store.get("out"), Some(data.clone()));
            reached_the_end = true;
        }
    }
    assert!(reached_the_end);
    // a standing request is obeyed before a damaged file is so much as
    // opened
    let mut store = MemoryStore::new();
    store.put("bad.img.gz", vec![1, 2, 3]);
    let mut state = DownloadState::new();
    let result = decompress_local_file(&mut store, "bad.img.gz", &mut state, &mut Stopped::new(), 2);
    assert!(matches!(result, Err(DecompressError::Cancelled)));
    assert!(!store.contains("bad.img"));
}
