use mcml::compile;
use mcml::datapack::Datapack;
use mcml::error::CompileError;
use mcml::utility::escape;
use std::collections::HashMap;

/// Runs the emitted scripts from `run`: scores, conditionals, calls and `tellraw`.
/// Returns the printed lines; any other command is printed as `> command`.
fn run(pack: &Datapack) -> Vec<String> {
    let scripts: HashMap<String, String> =
        pack.functions.iter().map(|f| (format!("{}:{}", f.namespace, f.name), f.content.clone())).collect();
    let mut machine = Machine { scripts, scores: HashMap::new(), out: Vec::new(), depth: 0 };
    machine.call("mctest:run");
    machine.out
}

struct Machine {
    scripts: HashMap<String, String>,
    scores: HashMap<(String, String), i64>,
    out: Vec<String>,
    depth: usize,
}

impl Machine {
    fn call(&mut self, name: &str) {
        self.depth += 1;
        assert!(self.depth < 200, "call depth");
        let content = self.scripts.get(name).unwrap_or_else(|| panic!("no script {}", name)).clone();
        for line in content.lines() {
            if !line.trim().is_empty() {
                self.exec(line.trim());
            }
        }
        self.depth -= 1;
    }

    fn score(&self, name: &str, obj: &str) -> i64 {
        *self.scores.get(&(name.to_owned(), obj.to_owned())).unwrap_or(&0)
    }

    fn exec(&mut self, line: &str) {
        let words: Vec<&str> = line.split(' ').collect();
        match words[0] {
            "scoreboard" if words[1] == "objectives" => {}
            "scoreboard" if words[2] == "set" => {
                let v: i64 = words[5].parse().unwrap();
                self.scores.insert((words[3].to_owned(), words[4].to_owned()), v);
            }
            "scoreboard" if words[2] == "operation" => {
                let d = self.score(words[3], words[4]);
                let s = self.score(words[6], words[7]);
                let r = match words[5] {
                    "=" => s,
                    "+=" => d + s,
                    "-=" => d - s,
                    "*=" => d * s,
                    "/=" => d / s,
                    op => panic!("operator {}", op),
                };
                self.scores.insert((words[3].to_owned(), words[4].to_owned()), r);
            }
            "tellraw" => {
                let text = &line["tellraw @s \"".len()..line.len() - 1];
                self.out.push(text.replace("\\\"", "\"").replace("\\\\", "\\"));
            }
            "function" => self.call(words[1]),
            "execute" => {
                let positive = words[1] == "if";
                let a = self.score(words[3], words[4]);
                let (holds, rest) = if words[5] == "matches" {
                    (a == words[6].parse::<i64>().unwrap(), 8)
                } else {
                    (a == self.score(words[6], words[7]), 9)
                };
                assert_eq!(words[rest - 1], "run");
                if holds == positive {
                    let cmd = words[rest..].join(" ");
                    self.exec(&cmd);
                }
            }
            _ => self.out.push(format!("> {}", line)),
        }
    }
}

fn tap(source: &str) -> Vec<String> {
    run(&compile(source).unwrap())
}

fn framed(lines: &[String], n: usize) {
    assert_eq!(lines[0], "TAP version 14");
    assert_eq!(lines[1], format!("1..{}", n));
    assert_eq!(lines[lines.len() - 1], "<EOF>");
}

#[test]
fn literal_true_reports_ok() {
    let lines = tap(r#"(test "literal true" (assert true))"#);
    framed(&lines, 1);
    assert!(lines.contains(&"ok - literal true".to_owned()));
    assert!(!lines.contains(&"not ok - literal true".to_owned()));
}

#[test]
fn literal_false_reports_not_ok() {
    let lines = tap(r#"(test "literal false" (assert false))"#);
    framed(&lines, 1);
    assert!(lines.contains(&"not ok - literal false".to_owned()));
    assert!(!lines.contains(&"ok - literal false".to_owned()));
}

#[test]
fn arithmetic_reports_ok() {
    let lines = tap(r#"(test "arith" (asserteq (+ 1 (* 2 3)) 7))"#);
    framed(&lines, 1);
    assert_eq!(lines[2..lines.len() - 1].to_vec(), vec!["ok - arith".to_owned()]);
}

#[test]
fn let_and_use_reports_ok() {
    let lines = tap(r#"(test "let and use" (let (x 5)) (asserteq x 5))"#);
    framed(&lines, 1);
    assert_eq!(lines[2..lines.len() - 1].to_vec(), vec!["ok - let and use".to_owned()]);
}

#[test]
fn failed_assertion_short_circuits() {
    let lines = tap(r#"(test "short-circuit" (assert false) (/ "should not run"))"#);
    framed(&lines, 1);
    assert_eq!(lines.iter().filter(|l| *l == "not ok - short-circuit").count(), 1);
    assert!(!lines.contains(&"ok - short-circuit".to_owned()));
    assert!(!lines.iter().any(|l| l.contains("should not run")));
}

#[test]
fn command_runs_once_then_ok() {
    let lines = tap(r#"(test "cmd" (/ "say hi"))"#);
    framed(&lines, 1);
    assert_eq!(lines[2..lines.len() - 1].to_vec(), vec!["> say hi".to_owned(), "ok - cmd".to_owned()]);
}

#[test]
fn unequal_values_report_not_ok() {
    let lines = tap(r#"(test "a" (let (x 2)) (let (y 3)) (asserteq x y)) (test "b" (asserteq (- 10 4) (/ 12 2)))"#);
    framed(&lines, 2);
    assert_eq!(lines[2..lines.len() - 1].to_vec(), vec!["not ok - a".to_owned(), "ok - b".to_owned()]);
}

#[test]
fn many_live_variables_spill_to_the_stack() {
    let mut source = String::from("(test \"spill\"");
    let names: Vec<String> = (0..22).map(|i| format!("v{}", i)).collect();
    for (i, n) in names.iter().enumerate() {
        source.push_str(&format!(" (let ({} {}))", n, i + 1));
    }
    let mut sum = names[21].clone();
    for n in names[..21].iter().rev() {
        sum = format!("(+ {} {})", n, sum);
    }
    source.push_str(&format!(" (asserteq {} 253))", sum));
    let pack = compile(&source).unwrap();
    assert!(pack.functions.iter().any(|f| f.content.contains("function mctest:push")));
    let lines = run(&pack);
    framed(&lines, 1);
    assert_eq!(lines[2..lines.len() - 1].to_vec(), vec!["ok - spill".to_owned()]);
}

#[test]
fn emission_is_deterministic() {
    let source = r#"(test "x" (let (a 1)) (let (b (+ a 2))) (asserteq b 3) (/ "say done"))"#;
    let one = compile(source).unwrap();
    let two = compile(source).unwrap();
    assert_eq!(one.functions, two.functions);
    assert_eq!(one.description, "Datapack generated by MCML");
    assert_eq!(one.pack_format, 18);
}

#[test]
fn package_layout() {
    let pack = compile(r#"(test "t" (assert true)) (test "u" (assert false))"#).unwrap();
    let names: Vec<&str> = pack.functions.iter().map(|f| f.name.as_str()).collect();
    assert_eq!(&names[..4], &["push", "pop", "test0", "test1"]);
    assert_eq!(names[names.len() - 1], "run");
    assert!(pack.functions.iter().all(|f| f.namespace == "mctest"));
    let run_script = &pack.functions[pack.functions.len() - 1].content;
    assert!(run_script.contains("function mctest:test0\nfunction mctest:test1\n"));
    assert!(run_script.ends_with("tellraw @s \"<EOF>\""));
    assert!(run_script.contains("scoreboard players set ptr stack 10\n"));
}

#[test]
fn test_names_are_escaped() {
    let pack = compile(r#"(test "a \"q\" \\ b" (assert true))"#).unwrap();
    let all: String = pack.functions.iter().map(|f| f.content.clone()).collect();
    assert!(all.contains(r#"tellraw @s "ok - a \"q\" \\ b""#));
    assert_eq!(run(&pack)[2], r#"ok - a "q" \ b"#);
}

#[test]
fn escape_doubles_backslashes_and_quotes() {
    assert_eq!(escape(r#"a"b\c"#), r#"a\"b\\c"#);
    assert_eq!(escape(""), "");
}

#[test]
fn compile_errors() {
    assert!(matches!(compile("(test \"t\" (assert y))"), Err(CompileError::UnboundVariable(_))));
    assert!(matches!(compile("(test \"t\" (assert 1))"), Err(CompileError::TypeError)));
    assert!(matches!(compile("(test \"t\" (asserteq 1 true))"), Err(CompileError::TypeError)));
    assert!(matches!(compile("(test"), Err(CompileError::Syntax(_))));
    assert!(matches!(compile("$"), Err(CompileError::UnexpectedCharacter('$'))));
}

#[test]
fn empty_program_has_only_runtime() {
    let pack = compile("").unwrap();
    let names: Vec<&str> = pack.functions.iter().map(|f| f.name.as_str()).collect();
    assert_eq!(names, vec!["push", "pop", "run"]);
    let lines = run(&pack);
    assert_eq!(lines, vec!["TAP version 14".to_owned(), "1..0".to_owned(), "<EOF>".to_owned()]);
}
