use std::collections::HashMap;

use objective_shell::effects::{ArithOp, DirEntry, EffectHandler};
use objective_shell::handles::{App, File, Folder};
use objective_shell::memory::Memory;
use objective_shell::shell::Shell;
use objective_shell::value::Value;

/// A handler backed by an in-memory filesystem that records every request.
struct TestHandler {
    files: HashMap<String, String>,
    dirs: Vec<String>,
    printed: Vec<String>,
    created_dirs: Vec<String>,
    cwd_sets: Vec<String>,
    started: Vec<(String, Vec<String>)>,
    opened: Vec<String>,
}

impl TestHandler {
    fn new() -> TestHandler {
        TestHandler {
            files: HashMap::new(),
            dirs: Vec::new(),
            printed: Vec::new(),
            created_dirs: Vec::new(),
            cwd_sets: Vec::new(),
            started: Vec::new(),
            opened: Vec::new(),
        }
    }

    fn canonical(path: &str) -> String {
        if path.starts_with('/') {
            path.to_string()
        } else {
            format!("/cwd/{path}")
        }
    }
}

impl EffectHandler for TestHandler {
    fn num_from_text(&mut self, text: &str) -> u64 {
        text.parse::<f64>().unwrap().to_bits()
    }

    fn num_to_text(&mut self, bits: u64) -> String {
        f64::from_bits(bits).to_string()
    }

    fn arith(&mut self, op: ArithOp, a: u64, b: u64) -> u64 {
        let x = f64::from_bits(a);
        let y = f64::from_bits(b);
        let z = match op {
            ArithOp::Add => x + y,
            ArithOp::Sub => x - y,
            ArithOp::Mul => x * y,
            ArithOp::Div => x / y,
            ArithOp::Rem => x % y,
            ArithOp::Pow => x.powf(y),
        };
        z.to_bits()
    }

    fn num_to_index(&mut self, bits: u64) -> usize {
        f64::from_bits(bits) as usize
    }

    fn num_from_len(&mut self, len: usize) -> u64 {
        (len as f64).to_bits()
    }

    fn file_create(&mut self, path: &str) -> String {
        let canon = TestHandler::canonical(path);
        self.files.entry(canon.clone()).or_default();
        canon
    }

    fn folder_create(&mut self, path: &str) -> String {
        let canon = TestHandler::canonical(path);
        if !self.dirs.contains(&canon) {
            self.dirs.push(canon.clone());
        }
        self.created_dirs.push(canon.clone());
        canon
    }

    fn file_read(&mut self, path: &str) -> String {
        self.files.get(path).cloned().unwrap_or_default()
    }

    fn file_write(&mut self, path: &str, content: &str) {
        self.files.insert(path.to_string(), content.to_string());
    }

    fn file_delete(&mut self, path: &str) {
        self.files.remove(path);
    }

    fn file_rename(&mut self, from: &str, to: &str) {
        if let Some(content) = self.files.remove(from) {
            self.files.insert(to.to_string(), content);
        }
    }

    fn file_open(&mut self, path: &str) {
        self.opened.push(path.to_string());
    }

    fn folder_list(&mut self, path: &str) -> Vec<DirEntry> {
        let prefix = format!("{path}/");
        let mut entries = Vec::new();
        for d in &self.dirs {
            if d.starts_with(&prefix) && !d[prefix.len()..].contains('/') {
                entries.push(DirEntry { path: d.clone(), is_dir: true });
            }
        }
        for f in self.files.keys() {
            if f.starts_with(&prefix) && !f[prefix.len()..].contains('/') {
                entries.push(DirEntry { path: f.clone(), is_dir: false });
            }
        }
        entries
    }

    fn folder_delete(&mut self, path: &str) {
        self.dirs.retain(|d| d != path);
    }

    fn folder_rename(&mut self, from: &str, to: &str) {
        for d in self.dirs.iter_mut() {
            if d == from {
                *d = to.to_string();
            }
        }
    }

    fn app_start(&mut self, name: &str, args: &Vec<String>) {
        self.started.push((name.to_string(), args.clone()));
    }

    fn print_line(&mut self, text: &str) {
        self.printed.push(text.to_string());
    }

    fn set_current_dir(&mut self, path: &str) {
        self.cwd_sets.push(path.to_string());
    }
}

fn num(x: f64) -> Value {
    Value::Number(x.to_bits())
}

fn fresh_shell() -> Shell {
    Shell::new(Memory::new())
}

#[test]
fn bare_token_falls_back_to_string() {
    let mut h = TestHandler::new();
    let mem = Memory::new();
    for t in ["hello", "not-a-number", "x2y", "Open", "File", "Folder()x"] {
        let v = Value::parse(t, &mem, &mut h).unwrap();
        assert_eq!(v, Value::Str(t.to_string()), "{t}");
    }
}

#[test]
fn bound_name_resolves_before_fallback() {
    let mut h = TestHandler::new();
    let mut mem = Memory::new();
    mem.insert("hello".to_string(), num(7.0));
    assert_eq!(Value::parse("hello", &mem, &mut h), Some(num(7.0)));
    assert_eq!(Value::parse(" hello ", &mem, &mut h), Some(num(7.0)));
}

#[test]
fn last_binding_wins() {
    let mut h = TestHandler::new();
    let mut mem = Memory::new();
    mem.insert("x".to_string(), num(1.0));
    mem.insert("x".to_string(), num(2.0));
    assert_eq!(Value::parse("x", &mem, &mut h), Some(num(2.0)));
}

#[test]
fn number_display_round_trip() {
    let mut h = TestHandler::new();
    let mem = Memory::new();
    for x in [5.0f64, -3.25, 0.1, 12345.678, 1e10, 0.0, -7.0] {
        let text = x.to_string();
        let v = Value::parse(&text, &mem, &mut h).unwrap();
        assert_eq!(v.display(&mut h), text);
    }
}

#[test]
fn quoted_literal_strips_outer_quotes() {
    let mut h = TestHandler::new();
    let mem = Memory::new();
    assert_eq!(
        Value::parse("\"hello world\"", &mem, &mut h),
        Some(Value::Str("hello world".to_string())),
    );
    assert_eq!(Value::parse("\"\"", &mem, &mut h), Some(Value::Str(String::new())));
}

#[test]
fn scoping_block_assignment_does_not_leak() {
    let mut h = TestHandler::new();
    let mut mem = Memory::new();
    mem.insert("x".to_string(), num(1.0));
    let mut sh = Shell::new(mem);
    assert_eq!(sh.eval("{x = 2; x}", &mut h), Some(num(2.0)));
    assert_eq!(sh.eval("x", &mut h), Some(num(1.0)));
}

#[test]
fn arithmetic_methods() {
    let mut h = TestHandler::new();
    let mut sh = fresh_shell();
    assert_eq!(sh.eval("5 + 3", &mut h), Some(num(8.0)));
    assert_eq!(sh.eval("5 - 3", &mut h), Some(num(2.0)));
    assert_eq!(sh.eval("5 * 3", &mut h), Some(num(15.0)));
    assert_eq!(sh.eval("7 % 4", &mut h), Some(num(3.0)));
    assert_eq!(sh.eval("2 ^ 10", &mut h), Some(num(1024.0)));
}

#[test]
fn division_by_zero_gives_infinity() {
    let mut h = TestHandler::new();
    let mut sh = fresh_shell();
    assert_eq!(sh.eval("5 / 0", &mut h), Some(num(f64::INFINITY)));
}

#[test]
fn number_unknown_method_or_bad_argument_is_soft_fault() {
    let mut h = TestHandler::new();
    let mut sh = fresh_shell();
    assert_eq!(sh.eval("5 Foo 3", &mut h), None);
    assert_eq!(sh.eval("5 + hello", &mut h), None);
    assert_eq!(sh.eval("5 +", &mut h), None);
}

#[test]
fn number_argument_coerces_from_text() {
    let mut h = TestHandler::new();
    let mut sh = fresh_shell();
    assert_eq!(sh.eval("5 + \"3\"", &mut h), Some(num(8.0)));
}

#[test]
fn array_length_and_index() {
    let mut h = TestHandler::new();
    let mut sh = fresh_shell();
    assert_eq!(sh.eval("[1 2 3] Length", &mut h), Some(num(3.0)));
    assert_eq!(sh.eval("[1 2 3] Index 1", &mut h), Some(num(2.0)));
    assert_eq!(sh.eval("[1 2 3] Index 5", &mut h), None);
}

#[test]
fn array_elements_parse_recursively() {
    let mut h = TestHandler::new();
    let mut sh = fresh_shell();
    assert_eq!(
        sh.eval("[1 \"two\" (1 + 2)]", &mut h),
        Some(Value::Array(vec![num(1.0), Value::Str("two".to_string()), num(3.0)])),
    );
}

#[test]
fn statement_sequencing_threads_environment() {
    let mut h = TestHandler::new();
    let mut sh = fresh_shell();
    assert_eq!(sh.run("a = 1; b = (a + 1); b", &mut h), Some(num(2.0)));
    assert_eq!(sh.memory.get_copy("a"), Some(num(1.0)));
    assert_eq!(sh.memory.get_copy("b"), Some(num(2.0)));
}

#[test]
fn folder_construction_creates_directory_while_parsing() {
    let mut h = TestHandler::new();
    let mem = Memory::new();
    assert!(h.created_dirs.is_empty());
    let v = Value::parse("Folder(\"newdir\")", &mem, &mut h).unwrap();
    assert_eq!(v, Value::Folder(Folder { path: "/cwd/newdir".to_string() }));
    // Parsing alone asked the platform to create the directory: no explicit
    // create call was evaluated.
    assert_eq!(h.created_dirs, vec!["/cwd/newdir".to_string()]);
    assert!(h.dirs.contains(&"/cwd/newdir".to_string()));
}

#[test]
fn failed_assignment_aborts_run_and_leaves_environment_unchanged() {
    let mut h = TestHandler::new();
    let mut sh = fresh_shell();
    assert_eq!(sh.run("a = ([1] Index 9); b = 1", &mut h), None);
    assert_eq!(sh.memory.get_copy("a"), None);
    assert_eq!(sh.memory.get_copy("b"), None);
}

#[test]
fn empty_group_assignment_aborts_run() {
    let mut h = TestHandler::new();
    let mut sh = fresh_shell();
    assert_eq!(sh.run("a = (); b = 1", &mut h), None);
    assert_eq!(sh.memory.get_copy("a"), None);
    assert_eq!(sh.memory.get_copy("b"), None);
}

#[test]
fn empty_group_argument_is_soft_fault() {
    let mut h = TestHandler::new();
    let mut sh = fresh_shell();
    assert_eq!(sh.eval("5 + ()", &mut h), None);
    assert_eq!(sh.eval("() + 5", &mut h), None);
}

#[test]
fn failing_array_element_fails_the_whole_array() {
    let mut h = TestHandler::new();
    let mem = Memory::new();
    assert_eq!(Value::parse("[1 ()]", &mem, &mut h), None);
    assert_eq!(Value::parse("[1 {}]", &mem, &mut h), None);
}

#[test]
fn app_name_comes_from_coerced_interior() {
    let mut h = TestHandler::new();
    let mem = Memory::new();
    assert_eq!(
        Value::parse("App(nano)", &mem, &mut h),
        Some(Value::App(App::new("nano".to_string()))),
    );
    assert_eq!(Value::parse("App({})", &mem, &mut h), None);
}

#[test]
fn index_select_is_exact_on_the_index() {
    let arr = vec![num(1.0), num(2.0), num(3.0)];
    assert_eq!(objective_shell::shell::index_select(&arr, 1), Some(num(2.0)));
    assert_eq!(objective_shell::shell::index_select(&arr, 3), None);
}

#[test]
fn assignment_of_bare_name_binds_its_text() {
    // A bare unbound name resolves to itself as a string (the fallback
    // literal rule), so assigning it binds that string.
    let mut h = TestHandler::new();
    let mut sh = fresh_shell();
    assert_eq!(
        sh.run("a = (unbound_name)", &mut h),
        Some(Value::Str("unbound_name".to_string())),
    );
    assert_eq!(sh.memory.get_copy("a"), Some(Value::Str("unbound_name".to_string())));
}

#[test]
fn string_concat_and_println() {
    let mut h = TestHandler::new();
    let mut sh = fresh_shell();
    assert_eq!(sh.eval("\"a\" + \"b\"", &mut h), Some(Value::Str("ab".to_string())));
    assert_eq!(sh.eval("\"a\" + 5", &mut h), Some(Value::Str("a5".to_string())));
    assert_eq!(sh.eval("\"hi\" PrintLn", &mut h), None);
    assert_eq!(h.printed, vec!["hi".to_string()]);
}

#[test]
fn string_bad_argument_is_soft_fault() {
    let mut h = TestHandler::new();
    let mut sh = fresh_shell();
    assert_eq!(sh.eval("\"a\" + [1 2]", &mut h), None);
    assert_eq!(sh.eval("\"a\" Foo", &mut h), None);
}

#[test]
fn file_write_and_read_round_trip() {
    let mut h = TestHandler::new();
    let mut sh = fresh_shell();
    assert_eq!(sh.run("f = File(\"notes.txt\")", &mut h), Some(Value::File(File {
        path: "/cwd/notes.txt".to_string(),
    })));
    assert_eq!(sh.eval("f Write-String \"hello\"", &mut h), None);
    assert_eq!(sh.eval("f Read-String", &mut h), Some(Value::Str("hello".to_string())));
}

#[test]
fn file_construction_creates_empty_file() {
    let mut h = TestHandler::new();
    let mem = Memory::new();
    let v = Value::parse("File(\"a.txt\")", &mem, &mut h).unwrap();
    assert_eq!(v, Value::File(File { path: "/cwd/a.txt".to_string() }));
    assert_eq!(h.files.get("/cwd/a.txt"), Some(&String::new()));
}

#[test]
fn folder_item_list_builds_handles() {
    let mut h = TestHandler::new();
    h.dirs.push("/cwd/d".to_string());
    h.dirs.push("/cwd/d/sub".to_string());
    h.files.insert("/cwd/d/a.txt".to_string(), String::new());
    let mut mem = Memory::new();
    mem.insert(
        "d".to_string(),
        Value::Folder(Folder { path: "/cwd/d".to_string() }),
    );
    let mut sh = Shell::new(mem);
    let listed = sh.eval("d Item-List", &mut h).unwrap();
    assert_eq!(
        listed,
        Value::Array(vec![
            Value::Folder(Folder { path: "/cwd/d/sub".to_string() }),
            Value::File(File { path: "/cwd/d/a.txt".to_string() }),
        ]),
    );
}

#[test]
fn entries_become_matching_handles_in_order() {
    let entries = vec![
        DirEntry { path: "/d/sub".to_string(), is_dir: true },
        DirEntry { path: "/d/a.txt".to_string(), is_dir: false },
        DirEntry { path: "/d/b.txt".to_string(), is_dir: false },
    ];
    let values = objective_shell::handles::entries_to_values(entries);
    assert_eq!(
        values,
        vec![
            Value::Folder(Folder { path: "/d/sub".to_string() }),
            Value::File(File { path: "/d/a.txt".to_string() }),
            Value::File(File { path: "/d/b.txt".to_string() }),
        ],
    );
}

#[test]
fn app_start_spawns_with_coerced_arguments() {
    let mut h = TestHandler::new();
    let mut sh = fresh_shell();
    assert_eq!(sh.eval("App(\"ls\") Start", &mut h), None);
    assert_eq!(sh.eval("App(\"echo\") Start \"hi\" 5", &mut h), None);
    assert_eq!(
        h.started,
        vec![
            ("ls".to_string(), vec![]),
            ("echo".to_string(), vec!["hi".to_string(), "5".to_string()]),
        ],
    );
}

#[test]
fn current_folder_is_reapplied_before_each_statement() {
    let mut h = TestHandler::new();
    let mut mem = Memory::new();
    mem.insert(
        "Current-Folder".to_string(),
        Value::Folder(Folder { path: "/cwd".to_string() }),
    );
    let mut sh = Shell::new(mem);
    assert_eq!(sh.run("1; 2", &mut h), Some(num(2.0)));
    assert_eq!(h.cwd_sets, vec!["/cwd".to_string(), "/cwd".to_string()]);
}

#[test]
fn display_renders_each_variant() {
    let mut h = TestHandler::new();
    assert_eq!(num(5.0).display(&mut h), "5");
    assert_eq!(Value::Str("hi".to_string()).display(&mut h), "\"hi\"");
    assert_eq!(
        Value::File(File { path: "/a".to_string() }).display(&mut h),
        "File( /a )",
    );
    assert_eq!(
        Value::Folder(Folder { path: "/b".to_string() }).display(&mut h),
        "Folder( /b )",
    );
    assert_eq!(Value::App(App::new("ls".to_string())).display(&mut h), "App( ls )");
    assert_eq!(
        Value::Array(vec![num(1.0), Value::Str("x".to_string())]).display(&mut h),
        "[1 \"x\"]",
    );
}

#[test]
fn empty_expression_is_soft_fault() {
    let mut h = TestHandler::new();
    let mut sh = fresh_shell();
    assert_eq!(sh.eval("", &mut h), None);
    assert_eq!(sh.eval("   ", &mut h), None);
    assert_eq!(sh.eval("()", &mut h), None);
}

#[test]
fn nested_block_returns_last_statement_value() {
    let mut h = TestHandler::new();
    let mut sh = fresh_shell();
    assert_eq!(sh.run("r = ({a = 2; b = (a * 3); b} + 1); r", &mut h), Some(num(7.0)));
}

#[test]
fn index_argument_coerces_from_text() {
    let mut h = TestHandler::new();
    let mut sh = fresh_shell();
    assert_eq!(sh.eval("[5 6] Index \"1\"", &mut h), Some(num(6.0)));
    assert_eq!(sh.eval("[5 6] Index x", &mut h), None);
}

#[test]
fn unknown_methods_are_soft_faults() {
    let mut h = TestHandler::new();
    let mut mem = Memory::new();
    mem.insert("d".to_string(), Value::Folder(Folder { path: "/cwd/d".to_string() }));
    mem.insert("f".to_string(), Value::File(File { path: "/cwd/f".to_string() }));
    let mut sh = Shell::new(mem);
    assert_eq!(sh.eval("d Missing", &mut h), None);
    assert_eq!(sh.eval("f Missing", &mut h), None);
    assert_eq!(sh.eval("[1] Missing", &mut h), None);
}

#[test]
fn brace_token_runs_statements_and_yields_last_result() {
    let mut h = TestHandler::new();
    let mem = Memory::new();
    assert_eq!(Value::parse("{1; 2}", &mem, &mut h), Some(num(2.0)));
    assert_eq!(Value::parse("{}", &mem, &mut h), None);
}

#[test]
fn file_delete_removes_the_file() {
    let mut h = TestHandler::new();
    let mut sh = fresh_shell();
    sh.run("f = File(\"gone.txt\")", &mut h);
    assert!(h.files.contains_key("/cwd/gone.txt"));
    assert_eq!(sh.eval("f Delete", &mut h), None);
    assert!(!h.files.contains_key("/cwd/gone.txt"));
}

#[test]
fn file_rename_updates_handle_path() {
    let mut h = TestHandler::new();
    h.files.insert("/x".to_string(), "data".to_string());
    let mut f = File { path: "/x".to_string() };
    f.rename("/y".to_string(), &mut h);
    assert_eq!(f.path, "/y");
    assert_eq!(h.files.get("/y"), Some(&"data".to_string()));
    assert_eq!(h.files.get("/x"), None);
}
