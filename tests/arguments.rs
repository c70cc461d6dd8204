use rcat::arguments::Arguments;
use rcat::config::ResolvedConfig;

fn args(items: &[&str]) -> Vec<String> {
    items.iter().map(|s| s.to_string()).collect()
}

#[test]
fn unknown_flag_is_an_error() {
    let r = Arguments::new(&args(&["-n", "-X", "file.txt", "-Y"]));
    assert_eq!(r.err(), Some("Invalid option: -X".to_string()));
}

#[test]
fn unknown_long_flag_is_an_error() {
    let r = Arguments::new(&args(&["--numbers"]));
    assert_eq!(r.err(), Some("Invalid option: --numbers".to_string()));
}

#[test]
fn no_positional_means_standard_input() {
    let a = Arguments::new(&args(&["-n"])).ok().unwrap();
    assert_eq!(a.files(), &vec!["-".to_string()]);
    let a = Arguments::new(&args(&[])).ok().unwrap();
    assert_eq!(a.files(), &vec!["-".to_string()]);
}

#[test]
fn positionals_keep_their_order() {
    let a = Arguments::new(&args(&["b.txt", "-E", "-", "a.txt"])).ok().unwrap();
    assert_eq!(a.files(), &args(&["b.txt", "-", "a.txt"]));
    assert!(a.has_option("-E"));
    assert!(!a.has_option("-n"));
}

#[test]
fn flags_are_additive() {
    let a = Arguments::new(&args(&["-b", "-n", "-s", "-t", "-u"])).ok().unwrap();
    let c = a.config();
    assert!(c.number && c.number_nonblank && c.squeeze_blank);
    assert!(c.show_tabs && c.show_nonprinting && !c.show_ends);
}

#[test]
fn show_all_sets_three_options() {
    let a = Arguments::new(&args(&["--show-all"])).ok().unwrap();
    let mut expected = ResolvedConfig::new();
    expected.show_nonprinting = true;
    expected.show_ends = true;
    expected.show_tabs = true;
    assert_eq!(a.config(), expected);
}

#[test]
fn long_and_short_forms_agree() {
    let pairs = [
        ("-b", "--number-nonblank"),
        ("-n", "--number"),
        ("-s", "--squeeze-blank"),
        ("-T", "--show-tabs"),
        ("-E", "--show-ends"),
        ("-A", "--show-all"),
        ("-v", "--show-nonprinting"),
    ];
    for (short, long) in pairs {
        let a = Arguments::new(&args(&[short])).ok().unwrap();
        let b = Arguments::new(&args(&[long])).ok().unwrap();
        assert_eq!(a.config(), b.config());
    }
}

#[test]
fn e_sets_ends_and_nonprinting() {
    let c = Arguments::new(&args(&["-e"])).ok().unwrap().config();
    assert!(c.show_ends && c.show_nonprinting && !c.show_tabs && !c.number);
}

#[test]
fn help_is_recorded() {
    let a = Arguments::new(&args(&["--help", "x"])).ok().unwrap();
    assert!(a.has_option("--help"));
    assert!(!a.has_option("-h"));
    assert_eq!(a.config(), ResolvedConfig::new());
}

#[test]
fn available_options_lists_every_flag() {
    let opts = Arguments::available_options();
    assert_eq!(opts.len(), 19);
    for (flag, _) in &opts {
        assert!(Arguments::new(&args(&[flag])).is_ok());
    }
}
