use geo_proc::exporter::{file_format, FileFormat, PathError};

#[test]
fn file_format_from_extension() {
    assert_eq!(file_format("mesh.obj").unwrap(), FileFormat::Obj);
    assert_eq!(file_format("dir/sub/mesh.poly").unwrap(), FileFormat::Poly);
    // The extension is the part between the first and the second dot of the file name.
    assert_eq!(file_format("mesh.obj.bak").unwrap(), FileFormat::Obj);
}

#[test]
fn file_format_without_extension() {
    match file_format("a.b/mesh") {
        Err(PathError::ExtensionNotSpecified { name }) => assert_eq!(name, "mesh"),
        other => panic!("unexpected {:?}", other),
    }
    match file_format("dir/") {
        Err(PathError::ExtensionNotSpecified { name }) => assert_eq!(name, ""),
        other => panic!("unexpected {:?}", other),
    }
}

#[test]
fn file_format_of_unknown_extension() {
    match file_format("dir.v2/file.tar.poly") {
        Err(PathError::FileTypeNotSupported { extension, name }) => {
            assert_eq!(extension, "tar");
            assert_eq!(name, "file");
        }
        other => panic!("unexpected {:?}", other),
    }
    match file_format("mesh.OBJ") {
        Err(PathError::FileTypeNotSupported { extension, name }) => {
            assert_eq!(extension, "OBJ");
            assert_eq!(name, "mesh");
        }
        other => panic!("unexpected {:?}", other),
    }
}
