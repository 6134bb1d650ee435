use resize_tree::paths::{output_path, TreePath};
use resize_tree::policy::{Dimensions, ResizeDecision, MAX_HEIGHT};
use resize_tree::triage::{is_image, is_image_mime, triage, SkipLog};

const JPEG: [u8; 12] = [0xFF, 0xD8, 0xFF, 0xE0, 0, 0x10, b'J', b'F', b'I', b'F', 0, 1];
const PNG: [u8; 8] = [0x89, b'P', b'N', b'G', 0x0D, 0x0A, 0x1A, 0x0A];

fn tp(s: &str) -> TreePath {
    TreePath { root: String::new(), segments: s.split('/').map(|x| x.to_string()).collect() }
}

#[test]
fn image_mime_prefix() {
    assert!(is_image_mime("image/png"));
    assert!(is_image_mime("image"));
    assert!(!is_image_mime("imag"));
    assert!(!is_image_mime("text/plain"));
    assert!(!is_image_mime("application/image"));
    assert!(!is_image_mime(""));
}

#[test]
fn sniffing_finds_images() {
    assert!(is_image(&JPEG));
    assert!(is_image(&PNG));
    assert!(!is_image(b"just some notes\n"));
    assert!(!is_image(&[]));
    // a PDF is sniffed, but not as an image
    assert!(!is_image(b"%PDF-1.7\n"));
}

#[test]
fn skipped_files_are_logged_in_order() {
    let mut log = SkipLog::new();
    assert!(log.is_empty());
    assert!(!triage(&mut log, tp("in/notes.txt"), b"hello"));
    assert!(triage(&mut log, tp("in/a.jpg"), &JPEG));
    assert!(!triage(&mut log, tp("in/x/readme.md"), b"# readme"));
    assert_eq!(log.len(), 2);
    let texts: Vec<String> = log.entries().iter().map(|p| p.text()).collect();
    assert_eq!(texts, vec!["in/notes.txt".to_string(), "in/x/readme.md".to_string()]);
}

#[test]
fn log_size_is_order_independent() {
    let files: Vec<(&str, &[u8])> = vec![("in/a.txt", b"a"), ("in/b.jpg", &JPEG), ("in/c.txt", b"c"), ("in/d.png", &PNG)];
    let mut forward = SkipLog::new();
    for (p, h) in files.iter() {
        triage(&mut forward, tp(p), h);
    }
    let mut backward = SkipLog::new();
    for (p, h) in files.iter().rev() {
        triage(&mut backward, tp(p), h);
    }
    assert_eq!(forward.len(), 2);
    assert_eq!(backward.len(), 2);
}

#[test]
fn report_lists_heading_then_paths() {
    let mut log = SkipLog::new();
    log.record(tp("in/notes.txt"));
    assert_eq!(
        log.report(),
        vec![
            "The following files are not images and were not processed:".to_string(),
            "in/notes.txt".to_string()
        ]
    );
}

#[test]
fn scenario_large_landscape_and_text() {
    let input = tp("in");
    let output = tp("out");
    let mut log = SkipLog::new();
    assert!(triage(&mut log, tp("in/a.jpg"), &JPEG));
    assert!(!triage(&mut log, tp("in/notes.txt"), b"some notes"));
    let dest = output_path(&tp("in/a.jpg"), &input, &output).unwrap();
    assert_eq!(dest.text(), "out/a.jpg");
    // the height of 2000 is over a threshold of 1080, so the height becomes 1080
    let decision = Dimensions { width: 3000, height: 2000 }.decide(1080);
    assert_eq!(decision, ResizeDecision::ResizeToHeight(1080));
    assert_eq!(decision.geometry(), Some("x1080".to_string()));
    // under the default threshold the same image keeps its size
    assert_eq!(Dimensions { width: 3000, height: 2000 }.decide(MAX_HEIGHT), ResizeDecision::Copy);
    assert_eq!(log.report().len(), 2);
    assert_eq!(log.report()[1], "in/notes.txt");
}

#[test]
fn scenario_small_png_is_copied() {
    let mut log = SkipLog::new();
    assert!(triage(&mut log, tp("in/b.png"), &PNG));
    let decision = Dimensions { width: 800, height: 600 }.decide(MAX_HEIGHT);
    assert_eq!(decision, ResizeDecision::Copy);
    assert_eq!(decision.geometry(), None);
    let dest = output_path(&tp("in/b.png"), &tp("in"), &tp("out")).unwrap();
    assert_eq!(dest.text(), "out/b.png");
    assert!(log.report().is_empty());
}

#[test]
fn scenario_empty_input_reports_nothing() {
    let log = SkipLog::new();
    assert_eq!(log.len(), 0);
    assert!(log.report().is_empty());
}
