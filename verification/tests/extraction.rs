use provision::archive::{extract_tar_gz, extract_tar_gz_uv, extract_zip};
use provision::fstree::FsState;

fn path(parts: &[&str]) -> Vec<Vec<u8>> {
    parts.iter().map(|p| p.as_bytes().to_vec()).collect()
}

fn tar_gz_of(entries: &[(&str, &[u8])]) -> Vec<u8> {
    let mut tarbuf: Vec<u8> = Vec::new();
    {
        let mut builder = tar::Builder::new(&mut tarbuf);
        for (name, data) in entries {
            let mut header = tar::Header::new_gnu();
            header.set_size(data.len() as u64);
            header.set_mode(0o644);
            header.set_cksum();
            builder.append_data(&mut header, *name, *data).unwrap();
        }
        builder.finish().unwrap();
    }
    let mut encoder =
        flate2::write::GzEncoder::new(Vec::new(), flate2::Compression::default());
    std::io::Write::write_all(&mut encoder, &tarbuf).unwrap();
    encoder.finish().unwrap()
}

fn zip_of(entries: &[(&str, &[u8])]) -> Vec<u8> {
    let cursor = std::io::Cursor::new(Vec::new());
    let mut writer = zip::ZipWriter::new(cursor);
    let options = zip::write::SimpleFileOptions::default();
    for (name, data) in entries {
        writer.start_file(*name, options).unwrap();
        std::io::Write::write_all(&mut writer, data).unwrap();
    }
    writer.finish().unwrap().into_inner()
}

#[test]
fn stripped_extraction_discards_first_component() {
    let archive = tar_gz_of(&[("toolname-1.0.0/bin/toolname", b"#!bin")]);
    let mut fs = FsState::empty();
    let dest = path(&["dest"]);
    fs.create_dir_all(&dest).unwrap();
    extract_tar_gz_uv(&mut fs, &archive, &dest).unwrap();
    assert!(fs.is_file(&path(&["dest", "bin", "toolname"])));
    assert_eq!(
        fs.read_file(&path(&["dest", "bin", "toolname"])).unwrap(),
        b"#!bin"
    );
    assert!(!fs.exists_path(&path(&["dest", "toolname-1.0.0"])));
}

#[test]
fn flat_extraction_keeps_first_component() {
    let archive = tar_gz_of(&[("toolname-1.0.0/bin/toolname", b"#!bin")]);
    let mut fs = FsState::empty();
    let dest = path(&["dest"]);
    fs.create_dir_all(&dest).unwrap();
    extract_tar_gz(&mut fs, &archive, &dest).unwrap();
    assert!(fs.is_file(&path(&["dest", "toolname-1.0.0", "bin", "toolname"])));
    assert!(fs.is_dir(&path(&["dest", "toolname-1.0.0", "bin"])));
    assert!(!fs.exists_path(&path(&["dest", "bin", "toolname"])));
}

#[test]
fn stripped_extraction_skips_single_component_entries() {
    let archive = tar_gz_of(&[("readme", b"top"), ("pkg/inner", b"kept")]);
    let mut fs = FsState::empty();
    let dest = path(&["d"]);
    fs.create_dir_all(&dest).unwrap();
    extract_tar_gz_uv(&mut fs, &archive, &dest).unwrap();
    assert!(!fs.exists_path(&path(&["d", "readme"])));
    assert_eq!(fs.read_file(&path(&["d", "inner"])).unwrap(), b"kept");
}

#[test]
fn zip_extraction_is_flat() {
    let archive = zip_of(&[("pkg-2.0/tool.exe", b"MZ"), ("pkg-2.0/doc.txt", b"hi")]);
    let mut fs = FsState::empty();
    let dest = path(&["z"]);
    fs.create_dir_all(&dest).unwrap();
    extract_zip(&mut fs, &archive, &dest).unwrap();
    assert_eq!(
        fs.read_file(&path(&["z", "pkg-2.0", "tool.exe"])).unwrap(),
        b"MZ"
    );
    assert_eq!(
        fs.read_file(&path(&["z", "pkg-2.0", "doc.txt"])).unwrap(),
        b"hi"
    );
}

#[test]
fn corrupt_archive_is_an_error() {
    let mut fs = FsState::empty();
    let dest = path(&["d"]);
    fs.create_dir_all(&dest).unwrap();
    let garbage = vec![1u8, 2, 3, 4, 5];
    assert!(extract_tar_gz(&mut fs, &garbage, &dest).is_err());
    assert!(extract_zip(&mut fs, &garbage, &dest).is_err());
}
