use scanner::env_expand::{env_var_references, expand_env_vars};

fn expand_with(input: &str, lookup: &dyn Fn(&str) -> Option<String>) -> String {
    let names = env_var_references(input);
    let values: Vec<Option<String>> = names.iter().map(|n| lookup(n)).collect();
    expand_env_vars(input, &values)
}

fn lookup(name: &str) -> Option<String> {
    match name {
        "LOCALAPPDATA" => Some("C:\\Users\\u\\AppData\\Local".to_string()),
        "HOME" => Some("/home/u".to_string()),
        _ => None,
    }
}

#[test]
fn expands_known_variables() {
    assert_eq!(expand_with("%LOCALAPPDATA%\\Temp", &lookup), "C:\\Users\\u\\AppData\\Local\\Temp");
    assert_eq!(expand_with("%HOME%/x/%HOME%", &lookup), "/home/u/x//home/u");
}

#[test]
fn keeps_unknown_empty_and_unclosed_references() {
    assert_eq!(expand_with("%NOPE%\\x", &lookup), "%NOPE%\\x");
    assert_eq!(expand_with("100%% sure", &lookup), "100%% sure");
    assert_eq!(expand_with("50% off", &lookup), "50% off");
    assert_eq!(expand_with("%NOPE%bar%", &lookup), "%NOPE%bar%");
    assert_eq!(expand_with("a%HOME", &lookup), "a%HOME");
    assert_eq!(expand_with("", &lookup), "");
}

#[test]
fn references_are_listed_in_order() {
    assert_eq!(env_var_references("%A%x%%%B%%C"), vec!["A".to_string(), "B".to_string()]);
    assert_eq!(env_var_references("plain"), Vec::<String>::new());
}

#[test]
fn nothing_set_keeps_the_input() {
    for input in ["%A%\\b", "%%", "x%y", "%A%%B%", "no refs"] {
        let names = env_var_references(input);
        let values: Vec<Option<String>> = names.iter().map(|_| None).collect();
        assert_eq!(expand_env_vars(input, &values), input);
        assert_eq!(expand_env_vars(input, &Vec::new()), input);
    }
}

#[test]
fn concatenation_after_even_percent_signs_expands_piecewise() {
    for (a, b) in [("%HOME%/x", "%LOCALAPPDATA%"), ("100%% ", "%HOME%"), ("plain", "%NOPE%y"), ("%A%%B%", "%HOME")] {
        let whole = expand_with(&format!("{a}{b}"), &lookup);
        assert_eq!(whole, format!("{}{}", expand_with(a, &lookup), expand_with(b, &lookup)));
    }
}
