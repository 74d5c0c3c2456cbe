use keifu::git::askpass::{AskPass, Credentials, ASKPASS_SCRIPT, ENV_PASS, ENV_USER};

#[test]
fn shim_branches_on_username_vs_password() {
    // The script must route a "Username" prompt to the user var and
    // everything else (the password prompt) to the pass var.
    assert!(ASKPASS_SCRIPT.contains("[Uu]sername*) printf '%s' \"$KEIFU_ASKPASS_USER\""));
    assert!(ASKPASS_SCRIPT.contains("*) printf '%s' \"$KEIFU_ASKPASS_PASS\""));
}

#[test]
fn credentials_travel_in_the_environment() {
    let auth = AskPass {
        shim: "/run/askpass.sh".to_string(),
        credentials: Credentials { username: "alice".to_string(), password: "p".to_string() },
    };
    let env: Vec<(String, String)> = auth.env().into_iter().map(|v| (v.name, v.value)).collect();
    let wanted: Vec<(String, String)> = [
        ("GIT_ASKPASS", "/run/askpass.sh"),
        (ENV_USER, "alice"),
        (ENV_PASS, "p"),
    ]
    .into_iter()
    .map(|(n, v)| (n.to_string(), v.to_string()))
    .collect();
    for var in &wanted {
        assert!(env.contains(var), "{} is set", var.0);
    }
}
