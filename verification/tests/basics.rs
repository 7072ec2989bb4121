use pit_box::artifact::{detect_format, ArtifactFormat, ArtifactSource, WasmArtifact};
use pit_box::digest::artifact_digest;
use pit_box::failure::Failure;
use pit_box::guest::{read_return, GuestReturn};
use pit_box::names::distinct_in_order;
use pit_box::outcome::GuestOutcome;
use pit_box::path::{file_name, join};
use pit_box::text::{
    before, decimal_string, equal_ignoring_case, hex_digest, includes, padded_decimal, split_char,
    split_once, split_pattern, split_words, strip_prefix, trim,
};
use std::path::Path;

const TEXTS: [&str; 14] = [
    "",
    ".",
    "..",
    "/",
    "a",
    "a/",
    "/a/b.wasm",
    "a/./",
    "a/..",
    "./a",
    "//",
    " a  b\t",
    "\u{3000}caf\u{e9}\u{a0}",
    "A, b, , c",
];

#[test]
fn paths_are_those_of_the_host() {
    for base in TEXTS {
        assert_eq!(
            file_name(base),
            Path::new(base).file_name().map(|name| name.to_str().expect("a text").to_owned())
        );
        for part in TEXTS {
            let joined = Path::new(base).join(part);
            assert_eq!(join(base, part), joined.to_str().expect("a text"));
        }
    }
}

#[test]
fn texts_are_split_and_compared_as_usual() {
    for a in TEXTS {
        assert_eq!(trim(a), a.trim());
        assert_eq!(split_words(a), a.split_whitespace().collect::<Vec<_>>());
        assert_eq!(split_char(a, '/'), a.split('/').collect::<Vec<_>>());
        assert_eq!(split_pattern(a, ", "), a.split(", ").collect::<Vec<_>>());
        let once = a.split_once('.').map(|(x, y)| (x.to_owned(), y.to_owned()));
        assert_eq!(split_once(a, '.'), once);
        for b in TEXTS {
            assert_eq!(before(a, b), a < b);
            assert_eq!(includes(a, b), a.contains(b));
            assert_eq!(equal_ignoring_case(a, b), a.eq_ignore_ascii_case(b));
            assert_eq!(strip_prefix(a, b).as_deref(), a.strip_prefix(b));
        }
    }
    assert!(equal_ignoring_case("Host", "hOST"));
    assert!(!equal_ignoring_case("\u{e9}", "\u{c9}"));
}

#[test]
fn numbers_are_written_as_usual() {
    for n in [0, 7, 10, 9_999, 10_000, u64::MAX] {
        assert_eq!(decimal_string(n), n.to_string());
        assert_eq!(padded_decimal(n, 4), format!("{n:04}"));
    }
    assert_eq!(hex_digest(&[0, 15, 16, 255]), "000f10ff");
}

#[test]
fn names_are_listed_once_and_in_order() {
    let names = ["b", "a", "b", "", "ab"].iter().map(|name| (*name).to_owned()).collect();
    assert_eq!(distinct_in_order(names), vec!["", "a", "ab", "b"]);
}

#[test]
fn digests_identify_contents() {
    let empty = "sha256:e3b0c44298fc1c149afbf4c8996fb92427ae41e4649b934ca495991b7852b855";
    assert_eq!(artifact_digest(b""), empty);
    assert_eq!(WasmArtifact::from_bytes(vec![]).id().as_str(), empty);
    assert!(WasmArtifact::from_bytes(vec![]).id() == WasmArtifact::from_bytes(vec![]).id());
    assert!(WasmArtifact::from_bytes(vec![]).id() != WasmArtifact::from_bytes(vec![0]).id());
    let at_path = WasmArtifact::from_path("/a/b.wasm");
    assert_eq!(at_path.id().as_str(), "path:/a/b.wasm");
    assert_eq!(at_path.program_name(), "b.wasm");
    assert_eq!(at_path.digest(b""), empty);
    assert_eq!(at_path.digest(b"other"), empty);
    let given = WasmArtifact::from_path_with_digest("..", "sha256:aa".to_owned());
    assert_eq!(given.id().as_str(), "sha256:aa");
    assert_eq!(given.digest(b""), "sha256:aa");
    assert_eq!(given.program_name(), "pit-wasm");
    assert!(matches!(given.source(), ArtifactSource::Path(path) if path == ".."));
}

#[test]
fn headers_tell_modules_from_components() {
    let module = wat::parse_str("(module)").expect("test WAT must compile");
    let component = wat::parse_str("(component)").expect("test WAT must compile");
    assert!(matches!(detect_format(&module), Ok(ArtifactFormat::CoreModule)));
    assert!(matches!(detect_format(&component), Ok(ArtifactFormat::Component)));
    assert!(detect_format(&module[..7]).is_err());
    assert!(detect_format(b"").is_err());
    assert!(detect_format(b"not wasm").is_err());
}

#[test]
fn what_the_engine_says_is_read() {
    let failed = |exit_code| GuestReturn::Failed { text: "text".to_owned(), exit_code };
    assert!(matches!(
        read_return(failed(Some(0))),
        GuestOutcome::Exited { code: 0, message } if message == "text"
    ));
    assert!(matches!(
        read_return(failed(Some(9))),
        GuestOutcome::Exited { code: 9, message } if message == "text"
    ));
    assert!(matches!(read_return(failed(None)), GuestOutcome::Trapped(text) if text == "text"));
    assert!(matches!(read_return(GuestReturn::Returned(true)), GuestOutcome::Returned));
    assert!(matches!(
        read_return(GuestReturn::Returned(false)),
        GuestOutcome::ReturnedFailure
    ));
    let missing = GuestReturn::NotStarted("none".to_owned());
    assert!(matches!(read_return(missing), GuestOutcome::NotStarted(text) if text == "none"));
}

#[test]
fn failures_tell_their_cause() {
    assert_eq!(Failure::new("what").describe(), "what");
    assert_eq!(Failure::caused("what", "why".to_owned()).describe(), "what: why");
}
