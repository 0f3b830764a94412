use fetter::site_customize::get_validate_command;
use fetter::site_customize::get_validation_subprocess;
use fetter::site_customize::int_to_text;
use fetter::site_customize::ValidationFlags;
use fetter::spin::get_banner;
use fetter::spin::spin_text;

#[test]
fn test_get_validation_command_a() {
    let bound_options = None;
    let vf = ValidationFlags {
        permit_superset: false,
        permit_subset: true,
    };
    let post = get_validate_command("python3", "requirements.txt", bound_options, &vf);
    assert_eq!(
        post,
        vec![
            "fetter",
            "-b",
            "validate --bound requirements.txt --subset",
            "--cache-duration",
            "0",
            "-e",
            "python3",
            "validate",
            "--bound",
            "requirements.txt",
            "--subset"
        ]
    )
}

#[test]
fn test_get_validation_command_b() {
    let bound_options = Some(vec!["foo".to_string(), "bar".to_string()]);
    let vf = ValidationFlags {
        permit_superset: true,
        permit_subset: true,
    };
    let post = get_validate_command("python3", "requirements.txt", bound_options, &vf);
    assert_eq!(post, vec!["fetter", "-b", "validate --bound requirements.txt --bound_options foo bar --subset --superset", "--cache-duration", "0", "-e", "python3", "validate", "--bound", "requirements.txt", "--bound_options", "foo", "bar", "--subset", "--superset"])
}

#[test]
fn test_get_validation_command_c() {
    let bound_options = Some(vec!["foo".to_string(), "bar".to_string()]);
    let vf = ValidationFlags {
        permit_superset: true,
        permit_subset: true,
    };
    let post = get_validate_command("python3", "requirements.txt", bound_options, &vf);
    assert_eq!(post, vec!["fetter", "-b", "validate --bound requirements.txt --bound_options foo bar --subset --superset", "--cache-duration", "0", "-e", "python3", "validate", "--bound", "requirements.txt", "--bound_options", "foo", "bar", "--subset", "--superset"])
}

#[test]
fn test_get_validation_subprocess_a() {
    let bound_options = None;
    let vf = ValidationFlags {
        permit_superset: false,
        permit_subset: true,
    };
    let ec: Option<i32> = Some(4);
    let post = get_validation_subprocess("python3", "requirements.txt", bound_options, &vf, ec, None);
    assert_eq!(post, "from subprocess import run\nr = run(['fetter', '-b', 'validate --bound requirements.txt --subset', '--cache-duration', '0', '-e', 'python3', 'validate', '--bound', 'requirements.txt', '--subset'])\nimport sys\nif r.returncode != 0: sys.exit(4) # fetter validate failed");
}

#[test]
fn test_get_validation_subprocess_b() {
    let bound_options = None;
    let vf = ValidationFlags {
        permit_superset: false,
        permit_subset: true,
    };
    let ec: Option<i32> = None;
    let post = get_validation_subprocess("python3", "requirements.txt", bound_options, &vf, ec, None);
    assert_eq!(post, "from subprocess import run\nr = run(['fetter', '-b', 'validate --bound requirements.txt --subset', '--cache-duration', '0', '-e', 'python3', 'validate', '--bound', 'requirements.txt', '--subset'])\n");
}

#[test]
fn test_get_validation_subprocess_c() {
    let bound_options = None;
    let vf = ValidationFlags {
        permit_superset: false,
        permit_subset: true,
    };
    let ec: Option<i32> = None;
    let cwd = Some("/home/foo".to_string());
    let post = get_validation_subprocess("python3", "requirements.txt", bound_options, &vf, ec, cwd);
    assert_eq!(post, "from subprocess import run\nr = run(['fetter', '-b', 'validate --bound requirements.txt --subset', '--cache-duration', '0', '-e', 'python3', 'validate', '--bound', 'requirements.txt', '--subset'], cwd='/home/foo')\n");
}

#[test]
fn validation_subprocess_with_options_and_negative_exit() {
    let vf = ValidationFlags {
        permit_superset: true,
        permit_subset: false,
    };
    let post = get_validation_subprocess(
        "/usr/bin/python3",
        "req.txt",
        Some(vec!["x".to_string()]),
        &vf,
        Some(-12),
        Some("/w".to_string()),
    );
    assert_eq!(post, "from subprocess import run\nr = run(['fetter', '-b', 'validate --bound req.txt --bound_options x --superset', '--cache-duration', '0', '-e', '/usr/bin/python3', 'validate', '--bound', 'req.txt', '--bound_options', 'x', '--superset'], cwd='/w')\nimport sys\nif r.returncode != 0: sys.exit(-12) # fetter validate failed");
}

#[test]
fn validate_command_without_flags() {
    let vf = ValidationFlags {
        permit_superset: false,
        permit_subset: false,
    };
    let post = get_validate_command("py", "b.txt", None, &vf);
    assert_eq!(post, vec!["fetter", "-b", "validate --bound b.txt", "--cache-duration", "0", "-e", "py", "validate", "--bound", "b.txt"]);
}

#[test]
fn int_text_extremes() {
    assert_eq!(int_to_text(0), "0");
    assert_eq!(int_to_text(105), "105");
    assert_eq!(int_to_text(i32::MIN), "-2147483648");
    assert_eq!(int_to_text(i32::MAX), "2147483647");
}

#[test]
fn banner_with_and_without_message() {
    assert_eq!(get_banner(None), "fetter 1.0.0\n");
    assert_eq!(get_banner(Some("scan".to_string())), "fetter 1.0.0: scan\n");
}

#[test]
fn spinner_text_steps() {
    assert_eq!(spin_text(0, "scanning"), "\u{b7} scanning... ");
    assert_eq!(spin_text(1, "scanning"), "\u{b7} scanning... ");
    assert_eq!(spin_text(8, "s"), "\u{25ce} s... ");
    assert_eq!(spin_text(19, "s"), "  s... ");
    assert_eq!(spin_text(22, "s"), "\u{2022} s... ");
}
