use plix::cli::{
    plix_cli_boot, plix_cli_execute, plix_cli_init, plix_cli_output, PlixCli, OUT_CAP,
};
use plix::driver::{plix_driver_init_arch, PlixDriverRegistry, PLIX_ARCH_X86_64};

const HELP: &str = "help/?  pwd/pw  who  goto/gt <path>  show/sw  drivers/drv  login <user> <pass>  pudo <pass> <command>  status/st\n";
const BANNER: &str = "plix cli ready at /users/guest\nuse help for commands\n";

fn ready() -> (PlixCli, PlixDriverRegistry) {
    let mut registry = PlixDriverRegistry::new();
    plix_driver_init_arch(&mut registry, PLIX_ARCH_X86_64);
    let mut cli = PlixCli::new();
    plix_cli_init(&mut cli);
    (cli, registry)
}

/// Runs a line and returns its return code and the text it added.
fn run(cli: &mut PlixCli, registry: &PlixDriverRegistry, line: &str) -> (i32, String) {
    let before = plix_cli_output(cli).len();
    let rc = plix_cli_execute(cli, registry, line.as_bytes());
    let text = String::from_utf8(plix_cli_output(cli)[before..].to_vec()).unwrap();
    (rc, text)
}

#[test]
fn init_writes_banner() {
    let (cli, _) = ready();
    assert_eq!(plix_cli_output(&cli), BANNER.as_bytes());
}

#[test]
fn help_and_alias() {
    let (mut cli, r) = ready();
    assert_eq!(run(&mut cli, &r, "help"), (0, HELP.to_string()));
    assert_eq!(run(&mut cli, &r, "?"), (0, HELP.to_string()));
    assert_eq!(run(&mut cli, &r, " \t help   ignored args"), (0, HELP.to_string()));
}

#[test]
fn pwd_and_alias() {
    let (mut cli, r) = ready();
    assert_eq!(run(&mut cli, &r, "pwd"), (0, "/users/guest\n".to_string()));
    assert_eq!(run(&mut cli, &r, "pw"), (0, "/users/guest\n".to_string()));
}

#[test]
fn status_lists_user_path_and_drivers() {
    let (mut cli, r) = ready();
    assert_eq!(run(&mut cli, &r, "status"), (0, "user=guest path=/users/guest drivers=+\n".to_string()));
    assert_eq!(run(&mut cli, &r, "st"), (0, "user=guest path=/users/guest drivers=+\n".to_string()));
}

#[test]
fn status_without_drivers() {
    let (mut cli, _) = ready();
    let empty = PlixDriverRegistry::new();
    assert_eq!(run(&mut cli, &empty, "status"), (0, "user=guest path=/users/guest drivers=0\n".to_string()));
}

#[test]
fn who_names_the_user() {
    let (mut cli, r) = ready();
    assert_eq!(run(&mut cli, &r, "who"), (0, "guest\n".to_string()));
}

#[test]
fn goto_moves_and_reports() {
    let (mut cli, r) = ready();
    assert_eq!(run(&mut cli, &r, "goto main"), (0, "jetzt in /users/guest/main\n".to_string()));
    assert_eq!(run(&mut cli, &r, "gt /users/root"), (0, "jetzt in /users/root\n".to_string()));
    assert_eq!(run(&mut cli, &r, "pwd"), (0, "/users/root\n".to_string()));
}

#[test]
fn goto_errors() {
    let (mut cli, r) = ready();
    assert_eq!(run(&mut cli, &r, "goto"), (-1, "goto braucht ein ziel\n".to_string()));
    assert_eq!(run(&mut cli, &r, "goto   "), (-1, "goto braucht ein ziel\n".to_string()));
    assert_eq!(run(&mut cli, &r, "goto nowhere"), (-1, "ziel nicht gefunden\n".to_string()));
    assert_eq!(run(&mut cli, &r, "goto main/system"), (-1, "ziel nicht gefunden\n".to_string()));
    assert_eq!(run(&mut cli, &r, "pwd"), (0, "/users/guest\n".to_string()));
}

#[test]
fn show_lists_entries() {
    let (mut cli, r) = ready();
    assert_eq!(run(&mut cli, &r, "show"), (0, "main\nhouse\n".to_string()));
    assert_eq!(run(&mut cli, &r, "gt main"), (0, "jetzt in /users/guest/main\n".to_string()));
    assert_eq!(run(&mut cli, &r, "sw"), (0, "system\n".to_string()));
}

#[test]
fn drivers_lists_registry() {
    let (mut cli, r) = ready();
    assert_eq!(run(&mut cli, &r, "drivers"), (0, "linux-8250-serial pio console\n".to_string()));
    assert_eq!(run(&mut cli, &r, "drv"), (0, "linux-8250-serial pio console\n".to_string()));
    let empty = PlixDriverRegistry::new();
    assert_eq!(run(&mut cli, &empty, "drivers"), (0, "keine linux treiber geladen\n".to_string()));
}

#[test]
fn login_as_root() {
    let (mut cli, r) = ready();
    assert_eq!(run(&mut cli, &r, "login root plixroot"), (0, "angemeldet als root\n".to_string()));
    assert_eq!(run(&mut cli, &r, "pwd"), (0, "/users/root\n".to_string()));
    assert_eq!(run(&mut cli, &r, "who"), (0, "root\n".to_string()));
}

#[test]
fn login_errors() {
    let (mut cli, r) = ready();
    assert_eq!(run(&mut cli, &r, "login"), (-1, "login braucht user und passwort\n".to_string()));
    assert_eq!(run(&mut cli, &r, "login root"), (-1, "login braucht user und passwort\n".to_string()));
    assert_eq!(run(&mut cli, &r, "login root   "), (-1, "login braucht user und passwort\n".to_string()));
    assert_eq!(run(&mut cli, &r, "login root nope"), (-1, "login fehlgeschlagen\n".to_string()));
    assert_eq!(run(&mut cli, &r, "login root plixroot "), (-1, "login fehlgeschlagen\n".to_string()));
    assert_eq!(run(&mut cli, &r, "who"), (0, "guest\n".to_string()));
}

#[test]
fn pudo_needs_power_user() {
    let (mut cli, r) = ready();
    assert_eq!(run(&mut cli, &r, "pudo guest reboot"), (-1, "pudo verweigert\n".to_string()));
    assert_eq!(run(&mut cli, &r, "login root plixroot"), (0, "angemeldet als root\n".to_string()));
    assert_eq!(run(&mut cli, &r, "pudo plixroot reboot now"), (0, "pudo erlaubt: reboot now\n".to_string()));
    assert_eq!(run(&mut cli, &r, "pudo plixroot"), (0, "pudo erlaubt: <leer>\n".to_string()));
    assert_eq!(run(&mut cli, &r, "pudo wrong reboot"), (-1, "pudo verweigert\n".to_string()));
    assert_eq!(run(&mut cli, &r, "pudo"), (-1, "pudo verweigert\n".to_string()));
}

#[test]
fn empty_and_unknown_lines() {
    let (mut cli, r) = ready();
    assert_eq!(run(&mut cli, &r, ""), (0, String::new()));
    assert_eq!(run(&mut cli, &r, " \t "), (0, String::new()));
    assert_eq!(run(&mut cli, &r, "ls"), (-1, "unbekannter befehl; nutze help\n".to_string()));
    assert_eq!(run(&mut cli, &r, "helpme"), (-1, "unbekannter befehl; nutze help\n".to_string()));
}

#[test]
fn line_ends_at_zero_byte() {
    let (mut cli, r) = ready();
    let before = plix_cli_output(&cli).len();
    assert_eq!(plix_cli_execute(&mut cli, &r, b"who\0 garbage"), 0);
    assert_eq!(&plix_cli_output(&cli)[before..], b"guest\n");
}

#[test]
fn transcript_is_capped() {
    let (mut cli, r) = ready();
    for _ in 0..10 {
        run(&mut cli, &r, "help");
    }
    let out = plix_cli_output(&cli);
    assert_eq!(out.len(), OUT_CAP - 1);
    let full = BANNER.to_string() + &HELP.repeat(10);
    assert_eq!(out, &full.as_bytes()[..OUT_CAP - 1]);
    assert_eq!(run(&mut cli, &r, "who"), (0, String::new()));
}

#[test]
fn boot_runs_status_drivers_and_show() {
    let mut registry = PlixDriverRegistry::new();
    plix_driver_init_arch(&mut registry, PLIX_ARCH_X86_64);
    let mut cli = PlixCli::new();
    plix_cli_boot(&mut cli, &registry);
    let expected = BANNER.to_string()
        + "user=guest path=/users/guest drivers=+\n"
        + "linux-8250-serial pio console\n"
        + "main\nhouse\n";
    assert_eq!(plix_cli_output(&cli), expected.as_bytes());
}
