use gimmeurl::names::{
    file_name_or_default, guess_mime, is_hidden, safe_file_name, NameSearch, LAST_NUMBER,
};

#[test]
fn safe_names() {
    assert_eq!(safe_file_name("report.pdf"), "report.pdf");
    assert_eq!(safe_file_name("some/dir/report.pdf"), "report.pdf");
    assert_eq!(safe_file_name("/etc/passwd"), "passwd");
    assert_eq!(safe_file_name("../../secret.txt"), "secret.txt");
    assert_eq!(safe_file_name("dir/"), "dir");
    assert_eq!(safe_file_name("dir//"), "dir");
    assert_eq!(safe_file_name("dir/."), "dir");
    assert_eq!(safe_file_name("  padded.txt \t"), "padded.txt");
    assert_eq!(safe_file_name("a b.txt"), "a b.txt");
    assert_eq!(safe_file_name("note: one.txt"), "note: one.txt");
    assert_eq!(safe_file_name("\u{3000}wide\u{a0}"), "wide");
}

#[test]
fn names_without_a_component_become_file() {
    assert_eq!(safe_file_name(""), "file");
    assert_eq!(safe_file_name("/"), "file");
    assert_eq!(safe_file_name("."), "file");
    assert_eq!(safe_file_name(".."), "file");
    assert_eq!(safe_file_name("a/.."), "file");
    assert_eq!(safe_file_name("   "), "file");
    assert_eq!(safe_file_name("dir/ "), "file");
}

#[test]
fn default_names() {
    assert_eq!(file_name_or_default(&None), "file");
    assert_eq!(file_name_or_default(&Some(" \n".to_string())), "file");
    assert_eq!(file_name_or_default(&Some(" x ".to_string())), "x");
}

#[test]
fn stored_names_have_no_separator() {
    for name in ["a/b", "/x/y/z", "..", "q/", "./r", "s/./t"] {
        let safe = safe_file_name(name);
        assert!(!safe.is_empty());
        assert!(!safe.contains('/'));
    }
}

#[test]
fn mime_types() {
    let table = [
        ("a.png", "image/png"),
        ("a.jpg", "image/jpeg"),
        ("a.jpeg", "image/jpeg"),
        ("a.gif", "image/gif"),
        ("a.webp", "image/webp"),
        ("a.svg", "image/svg+xml"),
        ("a.pdf", "application/pdf"),
        ("a.txt", "text/plain"),
        ("a.json", "application/json"),
        ("a.zip", "application/zip"),
        ("a.mp4", "video/mp4"),
        ("a.mov", "video/quicktime"),
        ("a.mp3", "audio/mpeg"),
        ("a.exe", "application/octet-stream"),
        ("a", "application/octet-stream"),
        ("", "application/octet-stream"),
        ("a.tar.zip", "application/zip"),
        ("png.", "application/octet-stream"),
        ("png", "image/png"),
        (".png", "image/png"),
    ];
    for (name, mime) in table {
        assert_eq!(guess_mime(name), mime);
    }
}

#[test]
fn mime_ignores_case() {
    assert_eq!(guess_mime("PHOTO.JPG"), "image/jpeg");
    assert_eq!(guess_mime("Photo.jPeG"), guess_mime("photo.jpeg"));
}

#[test]
fn hidden_names() {
    assert!(is_hidden(".DS_Store"));
    assert!(is_hidden("."));
    assert!(!is_hidden("a.b"));
    assert!(!is_hidden(""));
}

#[test]
fn free_name_is_used_as_it_is() {
    let mut search = NameSearch::start("dir/photo.png");
    assert_eq!(search.candidate(), "photo.png");
    assert_eq!(search.answer(false), Some("photo.png".to_string()));
}

#[test]
fn taken_names_get_a_number() {
    let mut search = NameSearch::start("photo.png");
    assert_eq!(search.answer(true), None);
    assert_eq!(search.candidate(), "photo (1).png");
    assert_eq!(search.answer(true), None);
    assert_eq!(search.candidate(), "photo (2).png");
    assert_eq!(search.answer(false), Some("photo (2).png".to_string()));
}

#[test]
fn numbers_go_before_the_last_extension() {
    let second = |name: &str| {
        let mut search = NameSearch::start(name);
        assert_eq!(search.answer(true), None);
        search.candidate()
    };
    assert_eq!(second("a.tar.gz"), "a.tar (1).gz");
    assert_eq!(second("README"), "README (1)");
    assert_eq!(second(".profile"), ".profile (1)");
    assert_eq!(second("dot."), "dot (1)");
    assert_eq!(second(""), "file (1)");
    assert_eq!(second(" .. "), "file (1)");
}

#[test]
fn parts_can_be_given() {
    let mut search = NameSearch::with_parts("x.y".to_string(), &None);
    assert_eq!(search.candidate(), "x.y");
    assert_eq!(search.answer(true), None);
    assert_eq!(search.candidate(), "file (1)");
}

#[test]
fn last_resort_is_an_id() {
    let mut search = NameSearch::start("a.txt");
    for _ in 0..LAST_NUMBER {
        assert_eq!(search.answer(true), None);
    }
    assert_eq!(search.candidate(), "a (999).txt");
    let name = search.answer(true).unwrap();
    assert_eq!(name.len(), 36 + "-a.txt".len());
    assert!(name.ends_with("-a.txt"));
    assert_eq!(&name[14..15], "4");
    assert_ne!(search.answer(true).unwrap(), name);
    assert_eq!(search.last_resort_name("id"), "id-a.txt");
}

#[test]
fn candidates_are_distinct() {
    let mut search = NameSearch::start("a.txt");
    let mut seen = vec![search.candidate()];
    for _ in 0..20 {
        assert_eq!(search.answer(true), None);
        let next = search.candidate();
        assert!(!seen.contains(&next));
        seen.push(next);
    }
}

#[test]
fn search_settles_on_the_first_free_name() {
    let taken = ["a.txt", "a (1).txt", "a (3).txt"];
    let mut search = NameSearch::start("a.txt");
    let settled = loop {
        let name = search.candidate();
        if let Some(settled) = search.answer(taken.contains(&name.as_str())) {
            break settled;
        }
    };
    assert_eq!(settled, "a (2).txt");
}

#[test]
fn odd_names_stay_in_the_folder() {
    for name in ["//server/share", "//", "c:x", "a/c:x", "/../x", "x/../..", " .. ", "//a/ b "] {
        let safe = safe_file_name(name);
        assert!(!safe.is_empty() && !safe.contains('/'));
        assert_eq!(safe.trim(), safe);
        assert!(safe == "file" || name.contains(&safe));
        let mut search = NameSearch::start(name);
        for _ in 0..3 {
            assert!(!search.candidate().contains('/'));
            search.answer(true);
        }
        assert!(!search.last_resort_name("id").contains('/'));
    }
}

#[test]
fn stored_names_are_stored_unchanged() {
    for name in ["a/b.txt", "  x ", "", "note: one", ".hidden", "a.tar.gz"] {
        let safe = safe_file_name(name);
        assert_eq!(safe_file_name(&safe), safe);
        assert_eq!(safe_file_name(&format!("dir/{}", safe)), safe);
        assert_eq!(safe_file_name(&format!("/x/../y//{}", safe)), safe);
    }
}

#[test]
fn names_with_backslashes_stay_in_the_folder() {
    let names = [
        r"..\..\x",
        r"a\b/c",
        r"a\..\../d",
        r"\server/share/e",
        r"c:\x/../f",
        r"..\/..\",
        r"a/b\",
        r"\/",
        "1: x.pdf",
    ];
    for name in names {
        let safe = safe_file_name(name);
        assert!(!safe.is_empty() && !safe.contains('/'));
        assert_eq!(safe.trim(), safe);
        assert!(safe == "file" || name.contains(&safe));
        let mut search = NameSearch::start(name);
        for _ in 0..3 {
            let candidate = search.candidate();
            assert!(!candidate.is_empty() && !candidate.contains('/'));
            search.answer(true);
        }
        assert!(!search.last_resort_name("id").contains('/'));
    }
    assert_eq!(safe_file_name(r"a\b/c"), "c");
    assert_eq!(safe_file_name("1: x.pdf"), "1: x.pdf");
    assert_eq!(safe_file_name("dir/1:x"), "1:x");
}
