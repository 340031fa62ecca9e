use epubcontract::epub::container::{Container, RootFile, RootFiles};
use epubcontract::epub::ncx::Ncx;
use epubcontract::epub::opf::{
    Author, Identifier, Manifest, ManifestItem, Metadata as OpfMetadata, Opf, Spine, SpineItem, Title,
};
use epubcontract::epubarchive::{EPubArchive, Epub};
use epubcontract::epubparser::EPubParser;
use epubcontract::publication::MultiLanguage;

fn u16le(v: &mut Vec<u8>, x: u16) {
    v.extend_from_slice(&x.to_le_bytes());
}

fn u32le(v: &mut Vec<u8>, x: u32) {
    v.extend_from_slice(&x.to_le_bytes());
}

/// A ZIP archive holding `files` (name, compression method, stored bytes).
fn zip(files: &[(&str, u16, Vec<u8>)]) -> Vec<u8> {
    let mut out = Vec::new();
    let mut offsets = Vec::new();
    for (name, method, data) in files {
        offsets.push(out.len() as u32);
        out.extend_from_slice(b"PK\x03\x04");
        u16le(&mut out, 20);
        u16le(&mut out, 0);
        u16le(&mut out, *method);
        u16le(&mut out, 0);
        u16le(&mut out, 0);
        u32le(&mut out, 0);
        u32le(&mut out, data.len() as u32);
        u32le(&mut out, data.len() as u32);
        u16le(&mut out, name.len() as u16);
        u16le(&mut out, 0);
        out.extend_from_slice(name.as_bytes());
        out.extend_from_slice(data);
    }
    let cd_start = out.len() as u32;
    for ((name, method, data), off) in files.iter().zip(offsets.iter()) {
        out.extend_from_slice(b"PK\x01\x02");
        u16le(&mut out, 20);
        u16le(&mut out, 20);
        u16le(&mut out, 0);
        u16le(&mut out, *method);
        u16le(&mut out, 0);
        u16le(&mut out, 0);
        u32le(&mut out, 0);
        u32le(&mut out, data.len() as u32);
        u32le(&mut out, data.len() as u32);
        u16le(&mut out, name.len() as u16);
        u16le(&mut out, 0);
        u16le(&mut out, 0);
        u16le(&mut out, 0);
        u16le(&mut out, 0);
        u32le(&mut out, 0);
        u32le(&mut out, *off);
        out.extend_from_slice(name.as_bytes());
    }
    let cd_size = out.len() as u32 - cd_start;
    out.extend_from_slice(b"PK\x05\x06");
    u16le(&mut out, 0);
    u16le(&mut out, 0);
    u16le(&mut out, files.len() as u16);
    u16le(&mut out, files.len() as u16);
    u32le(&mut out, cd_size);
    u32le(&mut out, cd_start);
    u16le(&mut out, 0);
    out
}

/// `data` as one stored (uncompressed) deflate block.
fn stored_deflate(data: &[u8]) -> Vec<u8> {
    let n = data.len() as u16;
    let mut v = vec![0x01];
    v.extend_from_slice(&n.to_le_bytes());
    v.extend_from_slice(&(!n).to_le_bytes());
    v.extend_from_slice(data);
    v
}

fn sample_archive() -> EPubArchive {
    let bytes = zip(&[
        ("META-INF/container.xml", 0, b"<container/>".to_vec()),
        ("OEBPS/ch1.xhtml", 8, stored_deflate(b"<html>one</html>")),
        ("OEBPS/style.css", 0, b"body{}".to_vec()),
        ("bad.bin", 0, vec![0xff, 0xfe]),
    ]);
    match EPubArchive::new(&bytes) {
        Ok(a) => a,
        Err(e) => panic!("archive not read: {}", e),
    }
}

#[test]
fn archive_reads_stored_and_deflated_files() {
    let a = sample_archive();
    assert_eq!(a.get(&b"OEBPS/style.css".to_vec()), Some(&b"body{}".to_vec()));
    assert_eq!(a.get(&b"OEBPS/ch1.xhtml".to_vec()), Some(&b"<html>one</html>".to_vec()));
    assert_eq!(a.get(&b"missing".to_vec()), None);
    assert_eq!(a.get_container_file(), Some(&b"<container/>".to_vec()));
    assert_eq!(a.get_data().len(), 4);
}

#[test]
fn archive_gives_texts_only_for_valid_utf8() {
    let a = sample_archive();
    assert_eq!(a.get_as_str(&b"OEBPS/style.css".to_vec()), Some("body{}"));
    assert_eq!(a.get_as_str(&b"bad.bin".to_vec()), None);
    assert_eq!(a.get_as_str(&b"missing".to_vec()), None);
    assert_eq!(EPubArchive::get_as_str_from_data(&a, "OEBPS/style.css"), Ok("body{}"));
    assert_eq!(
        EPubArchive::get_as_str_from_data(&a, "nope.xml"),
        Err(String::from("Can't get \"nope.xml\""))
    );
    let e = EPubArchive::get_as_str_from_data(&a, "bad.bin").unwrap_err();
    assert!(e.starts_with("Can't get utf8 "));
    assert!(e.contains("Utf8Error"));
}

#[test]
fn archive_refuses_unknown_compression_methods() {
    let bytes = zip(&[("a.txt", 12, b"zz".to_vec())]);
    match EPubArchive::new(&bytes) {
        Err(m) => assert_eq!(m, "Usupported compression method 12"),
        Ok(_) => panic!("read"),
    }
}

#[test]
fn archive_reports_an_unreadable_local_header() {
    let mut bytes = zip(&[("a.txt", 0, b"A".to_vec())]);
    bytes[0] = b'X';
    match EPubArchive::new(&bytes) {
        Err(m) => assert!(m.starts_with("Local file header ")),
        Ok(_) => panic!("read"),
    }
}

#[test]
fn archive_open_gives_none_without_a_central_directory() {
    assert!(EPubArchive::open(b"not a zip file").is_none());
}

#[test]
fn archive_open_reads_only_archives_without_deflated_entries() {
    let stored = zip(&[("a.txt", 0, b"A".to_vec()), ("b.txt", 0, b"B".to_vec())]);
    match EPubArchive::open(&stored) {
        Some(Ok(a)) => assert_eq!(a.get(&b"b.txt".to_vec()), Some(&b"B".to_vec())),
        _ => panic!("not read"),
    }
    let deflated = zip(&[("a.txt", 8, stored_deflate(b"A"))]);
    assert!(EPubArchive::open(&deflated).is_none());
    let later_file_wins = zip(&[("a.txt", 0, b"1".to_vec()), ("a.txt", 0, b"2".to_vec())]);
    match EPubArchive::open(&later_file_wins) {
        Some(Ok(a)) => assert_eq!(a.get(&b"a.txt".to_vec()), Some(&b"2".to_vec())),
        _ => panic!("not read"),
    }
}

#[test]
fn archive_of_no_file_is_empty() {
    let a = EPubArchive::new(&zip(&[])).ok().unwrap();
    assert_eq!(a.get_container_file(), None);
    assert!(a.get_data().is_empty());
}

#[test]
fn get_dir_keeps_what_precedes_the_last_slash() {
    assert_eq!(EPubArchive::get_dir("OEBPS/content.opf"), "OEBPS");
    assert_eq!(EPubArchive::get_dir("a/b/c.opf"), "a/b");
    assert_eq!(EPubArchive::get_dir("content.opf"), "");
    assert_eq!(EPubArchive::get_dir(""), "");
}

fn opf_metadata() -> OpfMetadata {
    OpfMetadata {
        title: Vec::new(),
        language: Vec::new(),
        identifier: Vec::new(),
        creator: Vec::new(),
        contributor: Vec::new(),
        subject: Vec::new(),
        date: Vec::new(),
        meta: Vec::new(),
        description: Vec::new(),
        publisher: Vec::new(),
        types: Vec::new(),
        format: Vec::new(),
        source: Vec::new(),
        relation: Vec::new(),
        coverage: Vec::new(),
        rights: Vec::new(),
    }
}

fn item(id: &str, href: &str, mediatype: &str) -> ManifestItem {
    ManifestItem {
        id: String::from(id),
        href: String::from(href),
        mediatype: String::from(mediatype),
        fallback: None,
        properties: None,
        mediaoverlay: None,
    }
}

fn sample_book() -> Epub {
    let mut metadata = opf_metadata();
    metadata.title.push(Title {
        content: String::from("A Book"),
        id: None,
        dir: None,
        lang: None,
    });
    metadata.language.push(String::from("en"));
    metadata.identifier.push(Identifier {
        content: String::from("urn:isbn:1"),
        id: Some(String::from("uid")),
        scheme: None,
    });
    metadata.creator.push(Author {
        content: String::from("Jane Doe"),
        file_as: None,
        role: None,
        id: None,
    });
    metadata.rights.push(String::from("All"));
    metadata.rights.push(String::from("reserved"));
    metadata.description.push(String::from("A short book."));
    metadata.publisher.push(String::from("ACME"));
    let opf = Opf {
        metadata,
        manifest: Manifest {
            items: vec![
                item("ch1", "ch1.xhtml", "application/xhtml+xml"),
                item("css", "style.css", "text/css"),
                item("ncx", "toc.ncx", "application/x-dtbncx+xml"),
            ],
        },
        spine: Spine {
            id: None,
            toc: Some(String::from("ncx")),
            page_progression: Some(String::from("ltr")),
            items: vec![SpineItem {
                id: None,
                idref: String::from("ch1"),
                properties: None,
                linear: None,
            }],
        },
        guide: None,
        dir: None,
        version: Some(String::from("2.0")),
        unique_identifier: String::from("uid"),
    };
    Epub {
        opf,
        ncx: Ncx::default(),
        container: Container {
            rootfiles: RootFiles {
                rootfile: RootFile {
                    full_path: String::from("OEBPS/content.opf"),
                    media_type: String::from("application/oebps-package+xml"),
                    version: None,
                },
            },
        },
        dir: String::from("OEBPS"),
        ncx_path: String::from("OEBPS/toc.ncx"),
    }
}

#[test]
fn ncx_path_follows_the_spine_toc() {
    let book = sample_book();
    assert_eq!(Epub::ncx_path(&book.opf, "OEBPS"), Some(String::from("OEBPS/toc.ncx")));
    let mut other = sample_book();
    other.opf.spine.toc = None;
    assert_eq!(Epub::ncx_path(&other.opf, "OEBPS"), None);
    other.opf.spine.toc = Some(String::from("none"));
    assert_eq!(Epub::ncx_path(&other.opf, "OEBPS"), None);
}

#[test]
fn epub_version_comes_from_the_container_then_the_package() {
    let mut book = sample_book();
    assert_eq!(EPubParser::get_epub_version(&book), Some("2.0"));
    assert!(!EPubParser::is_epub30_or_more(&book));
    book.container.rootfiles.rootfile.version = Some(String::from("3.0"));
    assert_eq!(EPubParser::get_epub_version(&book), Some("3.0"));
    assert!(EPubParser::is_epub30_or_more(&book));
}

#[test]
fn parse_builds_the_publication_of_the_package() {
    let archive = sample_archive();
    let book = sample_book();
    let p = EPubParser::parse(&archive, &book);
    assert_eq!(p.internal.get("type"), Some(&String::from("epub")));
    assert_eq!(p.internal.get("rootfile"), Some(&String::from("OEBPS/content.opf")));
    let publication = &p.publication;
    assert_eq!(
        publication.context,
        vec![String::from("https://readium.org/webpub-manifest/context.jsonld")]
    );
    assert_eq!(publication.metadata.rdftype, "http://schema.org/Book");
    match &publication.metadata.title {
        MultiLanguage::SingleString(t) => assert_eq!(t, "A Book"),
        MultiLanguage::MultiString(_) => panic!("several titles"),
    }
    assert_eq!(publication.metadata.language, Some(vec![String::from("en")]));
    assert_eq!(publication.metadata.identifier, Some(String::from("urn:isbn:1")));
    assert_eq!(publication.metadata.rights, Some(String::from("All reserved")));
    assert_eq!(publication.metadata.description, Some(String::from("A short book.")));
    assert_eq!(publication.metadata.direction, Some(String::from("ltr")));
    let authors = publication.metadata.author.as_ref().unwrap();
    assert_eq!(authors.len(), 1);
    match &authors[0].name {
        MultiLanguage::SingleString(n) => assert_eq!(n, "Jane Doe"),
        MultiLanguage::MultiString(_) => panic!("several names"),
    }
    let publishers = publication.metadata.publisher.as_ref().unwrap();
    assert_eq!(publishers.len(), 1);
    let reading: Vec<&str> = publication.reading_order.iter().map(|l| l.href.as_str()).collect();
    assert_eq!(reading, vec!["OEBPS/ch1.xhtml"]);
    assert_eq!(
        publication.reading_order[0].type_link,
        Some(String::from("application/xhtml+xml"))
    );
    let resources: Vec<&str> = publication.resources.iter().map(|l| l.href.as_str()).collect();
    assert_eq!(resources, vec!["OEBPS/style.css", "OEBPS/toc.ncx"]);
    let doc = publication
        .raw_resources
        .iter()
        .find(|r| r.name == b"OEBPS/ch1.xhtml".to_vec())
        .unwrap();
    assert!(doc.is_document);
    assert_eq!(doc.data, b"<html>one</html>".to_vec());
    let css = publication
        .raw_resources
        .iter()
        .find(|r| r.name == b"OEBPS/style.css".to_vec())
        .unwrap();
    assert!(!css.is_document);
}

#[test]
fn smil_time_is_kept_as_given() {
    assert_eq!(EPubParser::smil_time_to_seconds("0:01:02.5"), "0:01:02.5");
}

#[test]
fn archive_open_gives_none_when_the_directory_runs_into_its_end_record() {
    // The directory entry claims a 10-byte comment, so reading it runs into
    // the end-of-directory record that follows.
    let mut bytes = zip(&[("a.txt", 0, b"A".to_vec())]);
    let cd_start = 30 + 5 + 1;
    assert_eq!(&bytes[cd_start..cd_start + 4], b"PK\x01\x02");
    bytes[cd_start + 32] = 10;
    bytes[cd_start + 33] = 0;
    assert!(EPubArchive::open(&bytes).is_none());
    // Extra bytes between the directory and its end record are refused too.
    let mut gap = zip(&[("a.txt", 0, b"A".to_vec())]);
    let eocd = gap.len() - 22;
    gap.splice(eocd..eocd, [0u8, 0, 0].iter().cloned());
    assert!(EPubArchive::open(&gap).is_none());
}
