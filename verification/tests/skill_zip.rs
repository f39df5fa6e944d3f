use ggok::skill::{plan_upload, upload_kind, upload_zip, SkillError, SkillUpload, UploadKind};
use std::io::{Cursor, Write};
use zip::write::SimpleFileOptions;
use zip::ZipWriter;

fn archive(entries: &[(&str, &[u8])], dirs: &[&str]) -> Vec<u8> {
    let opts = SimpleFileOptions::default().compression_method(zip::CompressionMethod::Stored);
    let mut w = ZipWriter::new(Cursor::new(Vec::new()));
    for d in dirs {
        w.add_directory(*d, opts).unwrap();
    }
    for (name, data) in entries {
        w.start_file(*name, opts).unwrap();
        w.write_all(data).unwrap();
    }
    w.finish().unwrap().into_inner()
}

#[test]
fn zip_with_skill_in_a_folder() {
    let md = b"---\nname: My Tool\ndescription: d\n---\nbody\n";
    let bytes = archive(
        &[
            ("tool/SKILL.md", md),
            ("tool/scripts/run.sh", b"echo hi"),
            ("tool/__MACOSX/x", b"junk"),
            ("other/readme.txt", b"elsewhere"),
        ],
        &["tool/"],
    );
    let up = upload_zip(&bytes).unwrap();
    assert_eq!(up.name, "my-tool");
    assert_eq!(
        up.files,
        vec![
            ("SKILL.md".to_string(), md.to_vec()),
            ("scripts/run.sh".to_string(), b"echo hi".to_vec()),
        ]
    );
}

#[test]
fn zip_named_by_its_folder() {
    let bytes = archive(&[("Deploy Helper/skill.md", b"no front matter")], &[]);
    let up = upload_zip(&bytes).unwrap();
    assert_eq!(up.name, "deploy-helper");
    assert_eq!(up.files, vec![("skill.md".to_string(), b"no front matter".to_vec())]);
}

#[test]
fn zip_with_skill_at_root_wins() {
    let bytes = archive(
        &[("a/SKILL.md", b"---\nname: deep\n---\n"), ("SKILL.md", b"---\nname: top\n---\n"), ("x.txt", b"x")],
        &[],
    );
    let up = upload_zip(&bytes).unwrap();
    assert_eq!(up.name, "top");
    let names: Vec<&str> = up.files.iter().map(|f| f.0.as_str()).collect();
    assert_eq!(names, vec!["a/SKILL.md", "SKILL.md", "x.txt"]);
}

#[test]
fn zip_errors() {
    assert_eq!(upload_zip(b"PK\x03\x04 not really").err(), Some(SkillError::InvalidZip));
    let bytes = archive(&[("deep/er/SKILL.md", b"x"), ("notes.md", b"y")], &[]);
    assert_eq!(upload_zip(&bytes).err(), Some(SkillError::NoSkillMd));
    let bytes = archive(&[("SKILL.md", b"\xff\xfe")], &[]);
    assert_eq!(upload_zip(&bytes).err(), Some(SkillError::NotUtf8));
    let bytes = archive(&[("SKILL.md", b"---\nname: '!!!'\n---\n")], &[]);
    assert_eq!(upload_zip(&bytes).err(), Some(SkillError::NameRequired));
    let big = vec![b'a'; 8 * 1024 * 1024];
    let bytes = archive(&[("SKILL.md", b"---\nname: big\n---\n"), ("blob.bin", &big)], &[]);
    assert_eq!(upload_zip(&bytes).err(), Some(SkillError::ZipTooLarge));
}

#[test]
fn upload_kinds() {
    assert_eq!(upload_kind("a.md", b""), Err(SkillError::FileRequired));
    assert_eq!(upload_kind("a.md", &vec![b'a'; 8 * 1024 * 1024 + 1]), Err(SkillError::FileTooLarge));
    assert_eq!(upload_kind("A.ZIP", b"xx"), Ok(UploadKind::Zip));
    assert_eq!(upload_kind("a.skill", b"PK\x03\x04"), Ok(UploadKind::Zip));
    assert_eq!(upload_kind("blob", b"PK\x03\x04"), Ok(UploadKind::Zip));
    assert_eq!(upload_kind("Notes.MarkDown", b"# hi"), Ok(UploadKind::Markdown));
    assert_eq!(upload_kind("a.md", b"PK\x03\x04"), Ok(UploadKind::Markdown));
    assert_eq!(upload_kind("a.txt", b"hi"), Err(SkillError::UnsupportedUpload));
}

#[test]
fn uploads_by_kind() {
    match plan_upload("Deploy.md", b"# Deploy\nsteps") {
        Ok(SkillUpload::Markdown(name, md)) => {
            assert_eq!(name, "deploy");
            assert!(md.starts_with("---\n"));
            assert!(md.contains("# Deploy\nsteps"));
        }
        other => panic!("expected markdown, got {other:?}"),
    }
    match plan_upload("x.md", b"---\nname: kept\n---\nbody") {
        Ok(SkillUpload::Markdown(name, md)) => {
            assert_eq!(name, "kept");
            assert_eq!(md, "---\nname: kept\n---\nbody");
        }
        other => panic!("expected markdown, got {other:?}"),
    }
    assert_eq!(plan_upload("x.md", b"\xff").err(), Some(SkillError::NotUtf8));
    assert_eq!(plan_upload("x.txt", b"hi").err(), Some(SkillError::UnsupportedUpload));
    let bytes = archive(&[("SKILL.md", b"---\nname: z\n---\n")], &[]);
    match plan_upload("pack.zip", &bytes) {
        Ok(SkillUpload::Zip(u)) => assert_eq!(u.name, "z"),
        other => panic!("expected an archive, got {other:?}"),
    }
}
