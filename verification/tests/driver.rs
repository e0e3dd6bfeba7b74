use metasheet::driver::split_driver_files;
use metasheet::error::Error;

fn paths(list: &[&str]) -> Vec<String> {
    list.iter().map(|s| s.to_string()).collect()
}

#[test]
fn the_script_named_after_its_directory_is_the_main_file() {
    let r = split_driver_files(&paths(&["drv/style.css", "drv/drv.js", "drv/util.js"])).unwrap();
    assert_eq!(r, (1, vec![0, 2]));
}

#[test]
fn a_driver_of_one_file() {
    assert_eq!(split_driver_files(&paths(&["a/a.js"])).unwrap(), (0, vec![]));
}

#[test]
fn a_driver_without_main_file_is_refused() {
    assert!(matches!(
        split_driver_files(&paths(&["drv/style.css", "drv/util.js"])),
        Err(Error::MalformedDriver)
    ));
    assert!(matches!(split_driver_files(&paths(&[])), Err(Error::MalformedDriver)));
}

#[test]
fn a_driver_with_two_main_files_is_refused() {
    assert!(matches!(
        split_driver_files(&paths(&["drv/drv.js", "x/x.js"])),
        Err(Error::MalformedDriver)
    ));
}

#[test]
fn only_a_script_directly_in_its_directory_counts() {
    for other in ["drv.js", "drv/sub/drv.js", "drv/drv.jsx", "drv/Drv.js", "/.js/", "drv/drv"] {
        let r = split_driver_files(&paths(&["d/d.js", other])).unwrap();
        assert_eq!(r, (0, vec![1]), "{}", other);
    }
    assert_eq!(split_driver_files(&paths(&["/.js"])).unwrap(), (0, vec![]));
}
