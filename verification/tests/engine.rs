use pakhi::backend::heap::Heap;
use pakhi::backend::interpreter::{call_scope, run, DataType, Interpreter, Machine};
use pakhi::backend::mark_sweep::{collect_garbage, gc_mark};
use pakhi::common::io::{MockIO, IO};
use pakhi::common::number::Num;
use pakhi::common::pakhi_error::PakhiErr;
use pakhi::common::platform::Platform;
use pakhi::frontend::parser::Stmt;
use pakhi::frontend::{lexer, parser};

struct Host {
    files: std::collections::BTreeMap<String, String>,
    dirs: std::collections::BTreeSet<String>,
    input: Vec<String>,
}

impl Host {
    fn new() -> Host {
        Host {
            files: std::collections::BTreeMap::new(),
            dirs: std::collections::BTreeSet::new(),
            input: Vec::new(),
        }
    }
}

fn num(value: f64) -> Num {
    Num { bits: value.to_bits() }
}

fn val(n: Num) -> f64 {
    f64::from_bits(n.bits)
}

impl Platform for Host {
    fn add(&self, a: Num, b: Num) -> Num {
        num(val(a) + val(b))
    }

    fn sub(&self, a: Num, b: Num) -> Num {
        num(val(a) - val(b))
    }

    fn mul(&self, a: Num, b: Num) -> Num {
        num(val(a) * val(b))
    }

    fn div(&self, a: Num, b: Num) -> Num {
        num(val(a) / val(b))
    }

    fn rem(&self, a: Num, b: Num) -> Num {
        num(val(a) % val(b))
    }

    fn powf(&self, a: Num, b: Num) -> Num {
        num(val(a).powf(val(b)))
    }

    fn num_to_string(&self, n: Num) -> String {
        val(n).to_string()
    }

    fn parse_num(&self, text: &str) -> Result<Num, String> {
        match text.parse::<f64>() {
            Ok(v) => Ok(num(v)),
            Err(e) => Err(format!("{:?}", e)),
        }
    }

    fn read_line(&mut self) -> Result<String, String> {
        if self.input.is_empty() {
            Err("end of input".to_string())
        } else {
            Ok(self.input.remove(0).trim_end().to_string())
        }
    }

    fn read_file(&mut self, path: &str) -> Result<String, String> {
        match self.files.get(path) {
            Some(content) => Ok(content.clone()),
            None => Err("No such file or directory".to_string()),
        }
    }

    fn write_file(&mut self, path: &str, content: &str) -> Result<(), String> {
        self.files.insert(path.to_string(), content.to_string());
        Ok(())
    }

    fn delete_file(&mut self, path: &str) -> Result<(), String> {
        match self.files.remove(path) {
            Some(_) => Ok(()),
            None => Err("No such file or directory".to_string()),
        }
    }

    fn create_dir(&mut self, path: &str) -> Result<(), String> {
        self.dirs.insert(path.trim_end_matches('/').to_string());
        Ok(())
    }

    fn read_dir(&mut self, path: &str) -> Result<Vec<String>, String> {
        let dir = path.trim_end_matches('/').to_string();
        if !self.dirs.contains(&dir) {
            return Err("No such file or directory".to_string());
        }
        let prefix = format!("{}/", dir);
        let mut names = Vec::new();
        for name in self.files.keys() {
            if let Some(rest) = name.strip_prefix(&prefix) {
                if !rest.contains('/') {
                    names.push(rest.to_string());
                }
            }
        }
        Ok(names)
    }

    fn delete_dir(&mut self, path: &str) -> Result<(), String> {
        let dir = path.trim_end_matches('/').to_string();
        if self.dirs.remove(&dir) {
            let prefix = format!("{}/", dir);
            self.files.retain(|name, _| !name.starts_with(&prefix));
            Ok(())
        } else {
            Err("No such file or directory".to_string())
        }
    }

    fn is_file(&mut self, path: &str) -> Result<bool, String> {
        if self.files.contains_key(path) {
            Ok(true)
        } else if self.dirs.contains(path.trim_end_matches('/')) {
            Ok(false)
        } else {
            Err("No such file or directory".to_string())
        }
    }

    fn join_path(&self, base: &str, rest: &str) -> String {
        let rest = rest.strip_prefix("./").unwrap_or(rest);
        if rest.starts_with('/') || base.is_empty() {
            rest.to_string()
        } else if base.ends_with('/') {
            format!("{}{}", base, rest)
        } else {
            format!("{}/{}", base, rest)
        }
    }

    fn file_name(&self, path: &str) -> String {
        match path.rfind('/') {
            Some(i) => path[i + 1..].to_string(),
            None => path.to_string(),
        }
    }

    fn parent_dir(&self, path: &str) -> String {
        match path.rfind('/') {
            Some(i) => path[..i].to_string(),
            None => String::new(),
        }
    }

    fn absolute_parent_dir(&self, path: &str) -> String {
        let parent = self.parent_dir(path);
        if parent.starts_with('/') {
            parent
        } else if parent.is_empty() {
            "/work".to_string()
        } else {
            format!("/work/{}", parent)
        }
    }
}

// An `IO` that keeps what was written, line ends marked.
struct Recorder {
    out: Vec<String>,
}

impl IO for Recorder {
    fn new() -> Recorder {
        Recorder { out: Vec::new() }
    }

    fn print(&mut self, m: &str) {
        self.out.push(m.to_string());
    }

    fn println(&mut self, m: &str) {
        self.out.push(format!("{}\n", m));
    }

    fn read_src_code_from_file(&mut self, _file_path: &str) -> Result<String, String> {
        Err("no files".to_string())
    }

    fn panic(&mut self, _err: PakhiErr) {}
}

fn statements(src_lines: Vec<&str>) -> Result<Vec<Stmt>, PakhiErr> {
    let src: String = src_lines.join("\n");
    let host = Host::new();
    let mut io = Recorder::new();
    let tokens = lexer::tokenize(src.chars().collect(), "test.pakhi".to_string(), &host)?;
    parser::parse("test.pakhi".to_string(), tokens, &mut io, &host)
}

fn output(src_lines: Vec<&str>) -> (Result<(), PakhiErr>, String) {
    let ast = statements(src_lines).unwrap();
    let mut io = Recorder::new();
    let mut host = Host::new();
    let outcome = run(ast, &mut io, &mut host);
    (outcome, io.out.concat())
}

fn shown(src_lines: Vec<&str>) -> String {
    let (outcome, text) = output(src_lines);
    if let Err(e) = outcome {
        panic!("{:?}", e);
    }
    text
}

// Runs the statements on a machine to the end marker and hands it back.
fn machine_after(src_lines: Vec<&str>) -> Machine {
    let ast = statements(src_lines).unwrap();
    let mut io = Recorder::new();
    let mut host = Host::new();
    let mut machine = Machine::new();
    loop {
        if let Stmt::EOS(_, _) = ast[machine.current] {
            break;
        }
        machine.interpret(&ast, &mut io, &mut host).unwrap();
    }
    machine
}

#[test]
fn scope_shadowing_hides_and_restores() {
    let text = shown(vec![
        "নাম ক = ১;",
        "{",
        "    নাম ক = ২;",
        "    দেখাও ক;",
        "}",
        "দেখাও ক;",
    ]);
    assert_eq!("২\n১\n", text);
}

#[test]
fn inner_block_assigns_to_outer_variable() {
    let text = shown(vec![
        "নাম ক = ১;",
        "{",
        "    ক = ৫;",
        "}",
        "দেখাও ক;",
    ]);
    assert_eq!("৫\n", text);
}

#[test]
fn list_aliasing_shares_the_list() {
    let text = shown(vec![
        "নাম ক = [১, ২, ৩];",
        "নাম খ = ক;",
        "ক[১] = ২০;",
        "দেখাও খ[১];",
        "দেখাও ক == খ;",
        "দেখাও [১] == [১];",
    ]);
    assert_eq!("২০\nসত্য\nমিথ্যা\n", text);
}

#[test]
fn reachable_containers_survive_collections() {
    let text = shown(vec![
        "নাম রাখা = [[১, ২], @{\"k\" -> [৩],}];",
        "নাম গ = ০;",
        "লুপ {",
        "    নাম ফেলা = [১, ২, ৩, ৪, ৫, ৬, ৭, ৮, ৯, ১, ২, ৩];",
        "    গ = গ + ১;",
        "    যদি গ >= ৫০০ {",
        "        থামাও;",
        "    }",
        "} আবার;",
        "দেখাও রাখা[০][১];",
        "দেখাও রাখা[১][\"k\"][০];",
        "দেখাও রাখা;",
    ]);
    assert_eq!("২\n৩\n[[১, ২], @{\"k\":[৩],}]\n", text);
}

#[test]
fn collection_frees_and_allocation_reuses() {
    let mut machine = Machine::new();
    let kept = machine.heap.create_new_list_datatype(vec![DataType::Bool(true)]);
    let nested = machine.heap.create_new_list_datatype(vec![kept.clone()]);
    let lost = machine.heap.create_new_list_datatype(vec![DataType::Nil, DataType::Nil]);
    assert_eq!(DataType::List(0), kept);
    assert_eq!(DataType::List(1), nested);
    assert_eq!(DataType::List(2), lost);
    machine.declare("ক".to_string(), nested);

    let (marked_lists, marked_records) = gc_mark(&machine.envs, &machine.heap);
    assert_eq!(vec![true, true, false], marked_lists);
    assert!(marked_records.is_empty());

    for _ in 0..3 {
        collect_garbage(&machine.envs, &mut machine.heap);
        assert_eq!(vec![2], machine.heap.free_lists);
        assert_eq!(vec![DataType::Bool(true)], machine.heap.lists[0]);
        assert_eq!(vec![DataType::List(0)], machine.heap.lists[1]);
        assert!(machine.heap.lists[2].is_empty());
    }

    let reused = machine.heap.create_new_list_datatype(vec![DataType::Bool(false)]);
    assert_eq!(DataType::List(2), reused);
    assert!(machine.heap.free_lists.is_empty());
    assert_eq!(vec![DataType::Bool(true)], machine.heap.lists[0]);
    assert_eq!(vec![DataType::List(0)], machine.heap.lists[1]);
    let grown = machine.heap.create_new_list_datatype(Vec::new());
    assert_eq!(DataType::List(3), grown);
}

#[test]
fn collection_follows_cycles() {
    let mut machine = Machine::new();
    let a = machine.heap.create_new_list_datatype(vec![DataType::Nil]);
    let b = machine.heap.create_new_list_datatype(vec![a.clone()]);
    machine.heap.list_set(0, 0, b.clone());
    let c = machine.heap.create_new_list_datatype(vec![DataType::Nil]);
    machine.heap.list_set(2, 0, c);
    machine.declare("ক".to_string(), a);
    collect_garbage(&machine.envs, &mut machine.heap);
    assert_eq!(vec![2], machine.heap.free_lists);
    assert_eq!(vec![DataType::List(1)], machine.heap.lists[0]);
    assert_eq!(vec![DataType::List(0)], machine.heap.lists[1]);
}

#[test]
fn allocation_counts_elements() {
    let mut heap = Heap::new();
    heap.create_new_list_datatype(vec![DataType::Nil, DataType::Nil, DataType::Nil]);
    assert_eq!(3, heap.total_allocated_object_count);
    heap.total_allocated_object_count = usize::MAX - 1;
    heap.create_new_list_datatype(vec![DataType::Nil, DataType::Nil, DataType::Nil]);
    assert_eq!(usize::MAX, heap.total_allocated_object_count);
}

#[test]
fn return_from_nested_block_unwinds_scopes() {
    let machine = machine_after(vec![
        "ফাং রি(ক) {",
        "    যদি ক > ৪ {",
        "        {",
        "            ফেরত ক;",
        "        }",
        "    }",
        "    রি(ক + ১);",
        "} ফেরত;",
        "নাম ফল = রি(০);",
    ]);
    assert_eq!(1, machine.envs.len());
    assert!(machine.return_addrs.is_empty());
}

#[test]
fn break_restores_scope_depth() {
    let machine = machine_after(vec![
        "লুপ {",
        "    নাম ক = ১;",
        "    {",
        "        নাম খ = ২;",
        "        থামাও;",
        "    }",
        "} আবার;",
    ]);
    assert_eq!(1, machine.envs.len());
    assert!(machine.loops.is_empty());
}

#[test]
fn break_leaves_only_its_own_loop() {
    let text = shown(vec![
        "নাম ক = ০;",
        "লুপ {",
        "    ক = ক + ১;",
        "    যদি ক > ২ {",
        "        থামাও;",
        "    }",
        "    লুপ {",
        "        দেখাও ক;",
        "        থামাও;",
        "    } আবার;",
        "} আবার;",
        "দেখাও \"শেষ\";",
    ]);
    assert_eq!("১\n২\nশেষ\n", text);
}

#[test]
fn else_runs_when_condition_is_false() {
    let text = shown(vec![
        "যদি মিথ্যা {",
        "    দেখাও ১;",
        "} অথবা {",
        "    দেখাও ২;",
        "}",
        "যদি সত্য {",
        "    দেখাও ৩;",
        "} অথবা {",
        "    দেখাও ৪;",
        "}",
    ]);
    assert_eq!("২\n৩\n", text);
}

#[test]
fn operands_are_evaluated_left_to_right() {
    let text = shown(vec![
        "ফাং বাম() {",
        "    দেখাও \"বাম\";",
        "    ফেরত সত্য;",
        "} ফেরত;",
        "ফাং ডান() {",
        "    দেখাও \"ডান\";",
        "    ফেরত মিথ্যা;",
        "} ফেরত;",
        "নাম ক = বাম() & ডান();",
        "নাম খ = বাম() | ডান();",
    ]);
    assert_eq!("বাম\nডান\nবাম\nডান\n", text);
}

#[test]
fn missing_arguments_are_nil_and_extra_ones_are_ignored() {
    let text = shown(vec![
        "ফাং দুই(ক, খ) {",
        "    ফেরত _টাইপ(খ);",
        "} ফেরত;",
        "দেখাও দুই(১);",
        "দেখাও দুই(১, ২, ৩);",
    ]);
    assert_eq!("_শূন্য\n_সংখ্যা\n", text);
}

#[test]
fn arithmetic_gives_exact_values() {
    let text = shown(vec![
        "দেখাও ১ + ২ * ৩;",
        "দেখাও (১ + ২) * ৩;",
        "দেখাও ৭ / ২;",
        "দেখাও ৭ % ৪;",
        "দেখাও ১০ - ১২;",
        "দেখাও \"ক\" + \"খ\";",
    ]);
    assert_eq!("৭\n৯\n৩.৫\n৩\n-২\nকখ\n", text);
}

#[test]
fn list_sum_is_a_new_list() {
    let text = shown(vec![
        "নাম ক = [১];",
        "নাম খ = [২];",
        "নাম গ = ক + খ;",
        "গ[০] = ৯;",
        "দেখাও ক[০];",
        "দেখাও গ;",
        "দেখাও _লিস্ট-লেন(গ);",
    ]);
    assert_eq!("১\n[৯, ২]\n২\n", text);
}

#[test]
fn nested_assignment_follows_mixed_indexes() {
    let text = shown(vec![
        "নাম ক = [১, @{\"k\" -> [১, ২],}];",
        "ক[১][\"k\"][০] = ৫;",
        "ক[১][\"n\"] = \"x\";",
        "দেখাও ক[১][\"k\"][০];",
        "দেখাও ক[১][\"n\"];",
    ]);
    assert_eq!("৫\nx\n", text);
}

#[test]
fn list_pop_and_push_change_the_list_in_place() {
    let text = shown(vec![
        "নাম ক = [১, ২, ৩];",
        "_লিস্ট-পপ(ক);",
        "দেখাও ক;",
        "_লিস্ট-পুশ(ক, ০, ৭);",
        "দেখাও ক;",
        "নাম খ = [];",
        "_লিস্ট-পপ(খ);",
        "দেখাও _লিস্ট-লেন(খ);",
    ]);
    assert_eq!("[১, ২]\n[৭, ১, ২]\n০\n", text);
}

#[test]
fn string_split_gives_the_parts() {
    let text = shown(vec![
        "নাম ক = _স্ট্রিং-স্প্লিট(\"ক,খ,গ\", \",\");",
        "দেখাও _লিস্ট-লেন(ক);",
        "দেখাও ক[২];",
        "নাম খ = _স্ট্রিং-স্প্লিট(\"কখ\", \"\");",
        "দেখাও খ;",
        "দেখাও _স্ট্রিং-জয়েন(ক, \"/\");",
    ]);
    assert_eq!("৩\nগ\n[ক, খ]\nক/খ/গ\n", text);
}

#[test]
fn type_error_for_condition_that_is_no_truth_value() {
    let (outcome, _) = output(vec!["যদি ১ {", "}"]);
    assert!(matches!(outcome, Err(PakhiErr::TypeError(1, _, _))));
}

#[test]
fn type_error_for_mixed_operands() {
    let (outcome, _) = output(vec!["দেখাও ১ + \"ক\";"]);
    assert!(matches!(outcome, Err(PakhiErr::TypeError(_, _, _))));
    let (outcome, _) = output(vec!["দেখাও ১ < সত্য;"]);
    assert!(matches!(outcome, Err(PakhiErr::TypeError(_, _, _))));
    let (outcome, _) = output(vec!["দেখাও -সত্য;"]);
    assert!(matches!(outcome, Err(PakhiErr::TypeError(_, _, _))));
    let (outcome, _) = output(vec!["নাম ক = ১;", "দেখাও ক[০];"]);
    assert!(matches!(outcome, Err(PakhiErr::TypeError(_, _, _))));
}

#[test]
fn type_error_for_value_without_a_rendering() {
    let (outcome, _) = output(vec!["নাম ক;", "দেখাও ক;"]);
    assert!(matches!(outcome, Err(PakhiErr::TypeError(2, _, _))));
}

#[test]
fn runtime_error_for_unknown_variable() {
    let (outcome, _) = output(vec!["দেখাও ক;"]);
    assert!(matches!(outcome, Err(PakhiErr::RuntimeError(1, _, _))));
    let (outcome, _) = output(vec!["ক = ১;"]);
    assert!(matches!(outcome, Err(PakhiErr::RuntimeError(1, _, _))));
}

#[test]
fn runtime_error_for_index_out_of_range_and_missing_key() {
    let (outcome, _) = output(vec!["নাম ক = [১];", "দেখাও ক[৫];"]);
    assert!(matches!(outcome, Err(PakhiErr::RuntimeError(_, _, _))));
    let (outcome, _) = output(vec!["নাম ক = [১];", "ক[৫] = ২;"]);
    assert!(matches!(outcome, Err(PakhiErr::RuntimeError(_, _, _))));
    let (outcome, _) = output(vec!["নাম ক = @{\"k\" -> ১,};", "দেখাও ক[\"n\"];"]);
    assert!(matches!(outcome, Err(PakhiErr::RuntimeError(_, _, _))));
    let (outcome, _) = output(vec!["নাম ক = [১];", "_লিস্ট-পপ(ক, ৩);"]);
    assert!(matches!(outcome, Err(PakhiErr::RuntimeError(_, _, _))));
}

#[test]
fn runtime_error_raised_by_the_program() {
    let (outcome, text) = output(vec!["দেখাও ১;", "_এরর(\"থামো\");", "দেখাও ২;"]);
    match outcome {
        Err(PakhiErr::RuntimeError(line, file, message)) => {
            assert_eq!(2, line);
            assert_eq!("test.pakhi", file);
            assert_eq!("থামো", message);
        }
        other => panic!("{:?}", other),
    }
    assert_eq!("১\n", text);
}

#[test]
fn division_by_zero_is_no_error_of_its_own() {
    let text = shown(vec!["নাম ক = ১ / ০;", "দেখাও ক > ১০০০;", "দেখাও (০ / ০) == (০ / ০);"]);
    assert_eq!("সত্য\nমিথ্যা\n", text);
    let (outcome, _) = output(vec!["দেখাও ১ / ০;"]);
    assert!(matches!(outcome, Err(PakhiErr::RuntimeError(_, _, _))));
}

#[test]
fn unexpected_error_when_the_budget_is_used_up() {
    let ast = statements(vec!["লুপ {", "} আবার;"]).unwrap();
    let mut io: MockIO = MockIO::new();
    let mut host = Host::new();
    let mut interpreter = Interpreter::new(ast, &mut io, &mut host);
    interpreter.set_step_budget(1000);
    match interpreter.run() {
        Err(PakhiErr::UnexpectedError(message)) => assert_eq!("Step budget exhausted", message),
        other => panic!("{:?}", other),
    }
}

#[test]
fn unexpected_error_without_end_marker() {
    let mut io: MockIO = MockIO::new();
    let mut host = Host::new();
    let outcome = run(Vec::new(), &mut io, &mut host);
    assert!(matches!(outcome, Err(PakhiErr::UnexpectedError(_))));
}

#[test]
fn syntax_errors_of_the_lexer_and_the_parser() {
    assert!(matches!(statements(vec!["# খোলা"]), Err(PakhiErr::SyntaxError(1, _, _))));
    assert!(matches!(statements(vec!["দেখাও ১.২.৩;"]), Err(PakhiErr::SyntaxError(1, _, _))));
    assert!(matches!(statements(vec!["", "নাম ১;"]), Err(PakhiErr::SyntaxError(2, _, _))));
    assert!(matches!(statements(vec!["দেখাও ^;"]), Err(PakhiErr::SyntaxError(1, _, _))));
    assert!(matches!(statements(vec!["দেখাও ১"]), Err(PakhiErr::UnexpectedError(_))));
}

#[test]
fn mock_io_reports_unexpected_output() {
    let mut io: MockIO = MockIO::new();
    io.expect_println("১");
    io.println("১");
    assert!(io.assert_all_true());
    io.println("২");
    assert!(!io.expectations_met());

    let mut other: MockIO = MockIO::new();
    other.expect_print("১");
    other.println("১");
    assert!(!other.expectations_met());

    let mut third: MockIO = MockIO::new();
    third.expect_panic(PakhiErr::UnexpectedError("ক".to_string()));
    third.panic(PakhiErr::UnexpectedError("খ".to_string()));
    assert!(!third.expectations_met());
    assert!(third.read_src_code_from_file("test.pakhi").is_err());
}

#[test]
fn parse_ends_with_the_end_marker() {
    let ast = statements(vec!["# ক #", "দেখাও ১;", "# খ #"]).unwrap();
    assert_eq!(2, ast.len());
    assert!(matches!(ast[0], Stmt::Print(_, 2, _)));
    assert!(matches!(ast[1], Stmt::EOS(0, _)));
}

#[test]
fn call_scope_binds_parameters_in_order() {
    let params = vec!["ক".to_string(), "খ".to_string(), "ক".to_string()];
    let values = vec![DataType::Bool(true), DataType::Bool(false)];
    let scope = call_scope(&params, &values);
    assert_eq!(2, scope.len());
    assert_eq!(Some(0), scope.position("ক"));
    assert_eq!(Some(1), scope.position("খ"));
    assert_eq!(Some(DataType::Nil), scope.entries[0].value);
    assert_eq!(Some(DataType::Bool(false)), scope.entries[1].value);
}

#[test]
fn collection_is_due_at_the_threshold() {
    let mut machine = Machine::new();
    machine.heap.create_new_list_datatype(vec![DataType::Nil; 999]);
    machine.collect_if_due();
    assert_eq!(999, machine.heap.total_allocated_object_count);
    assert_eq!(999, machine.heap.lists[0].len());
    machine.heap.create_new_list_datatype(vec![DataType::Nil]);
    machine.collect_if_due();
    assert_eq!(0, machine.heap.total_allocated_object_count);
    assert!(machine.heap.lists[0].is_empty());
    assert_eq!(vec![0, 1], machine.heap.free_lists);
}

#[test]
fn function_definition_binds_entry_point_and_parameters() {
    let machine = machine_after(vec!["ফাং যোগ(ক, খ) {", "    ফেরত ক + খ;", "} ফেরত;"]);
    assert_eq!(6, machine.current);
    match &machine.envs[0].entries[0].value {
        Some(DataType::Function(func)) => {
            assert_eq!(2, func.starting_statement);
            assert_eq!(vec!["ক".to_string(), "খ".to_string()], func.args);
        }
        other => panic!("{:?}", other),
    }
}

#[test]
fn built_in_errors_follow_the_taxonomy() {
    let (outcome, _) = output(vec!["_লিস্ট-পুশ(১, ২);"]);
    assert!(matches!(outcome, Err(PakhiErr::TypeError(1, _, _))));
    let (outcome, _) = output(vec!["_লিস্ট-পুশ();"]);
    assert!(matches!(outcome, Err(PakhiErr::RuntimeError(1, _, _))));
    let (outcome, _) = output(vec!["_এরর(১);"]);
    assert!(matches!(outcome, Err(PakhiErr::TypeError(1, _, _))));
    let (outcome, _) = output(vec!["দেখাও _সংখ্যা(\"ক\");"]);
    assert!(matches!(outcome, Err(PakhiErr::RuntimeError(1, _, _))));
    let (outcome, _) = output(vec!["দেখাও _রিড-ফাইল(\"নেই\");"]);
    assert!(matches!(outcome, Err(PakhiErr::RuntimeError(1, _, _))));
    let (outcome, _) = output(vec!["দেখাও _রিড-ফাইল(১);"]);
    assert!(matches!(outcome, Err(PakhiErr::TypeError(1, _, _))));
}

#[test]
fn split_result_reuses_a_free_slot() {
    let text = shown(vec![
        "নাম ক = _স্ট্রিং-স্প্লিট(\"ক খ\", \" \");",
        "দেখাও ক;",
        "দেখাও _স্ট্রিং-স্প্লিট(\"\", \"ক\");",
    ]);
    assert_eq!("[ক, খ]\n[]\n", text);
}

#[test]
fn recursion_computes_fibonacci() {
    let text = shown(vec![
        "ফাং ফিব(ক) {",
        "    যদি ক < ২ {",
        "        ফেরত ক;",
        "    }",
        "    ফেরত ফিব(ক - ১) + ফিব(ক - ২);",
        "} ফেরত;",
        "দেখাও ফিব(১৫);",
    ]);
    assert_eq!("৬১০\n", text);
}

#[test]
fn print_without_line_end_and_comments() {
    let text = shown(vec![
        "# শুরু #",
        "_দেখাও \"ক\";",
        "_দেখাও ১.৫; # মাঝে #",
        "_দেখাও সত্য;",
        "দেখাও [\"খ\", [মিথ্যা], @{\"গ\" -> -২,}];",
    ]);
    assert_eq!("ক১.৫সত্য[খ, [মিথ্যা], @{\"গ\":-২,}]\n", text);
}

#[test]
fn continue_starts_the_body_again_without_scopes_left_over() {
    let machine = machine_after(vec![
        "নাম ক = ০;",
        "নাম যোগফল = ০;",
        "লুপ {",
        "    ক = ক + ১;",
        "    যদি ক > ৫ {",
        "        থামাও;",
        "    }",
        "    নাম খ = ক * ২;",
        "    যোগফল = যোগফল + খ;",
        "} আবার;",
    ]);
    assert_eq!(1, machine.envs.len());
    assert!(machine.loops.is_empty());
    assert_eq!(
        Some(DataType::Num(num(30.0))),
        machine.envs[0].entries[1].value
    );
}

#[test]
fn function_sees_globals_and_its_parameters_only() {
    let text = shown(vec![
        "নাম বাইরে = ১০;",
        "ফাং ভেতর(ক) {",
        "    ফেরত বাইরে + ক;",
        "} ফেরত;",
        "দেখাও ভেতর(৫);",
    ]);
    assert_eq!("১৫\n", text);
    let (outcome, _) = output(vec![
        "ফাং এক() {",
        "    নাম লুকানো = ১;",
        "    ফেরত দুই();",
        "} ফেরত;",
        "ফাং দুই() {",
        "    ফেরত অচেনা;",
        "} ফেরত;",
        "দেখাও এক();",
    ]);
    assert!(matches!(outcome, Err(PakhiErr::RuntimeError(_, _, _))));
}

#[test]
fn record_keeps_later_value_of_a_key_written_twice() {
    let machine = machine_after(vec!["নাম ক = @{\"k\" -> ১, \"n\" -> ২, \"k\" -> ৩,};"]);
    let record = &machine.heap.nameless_records[0];
    assert_eq!(2, record.len());
    assert_eq!("k", record.entries[0].key);
    assert_eq!(DataType::Num(num(3.0)), record.entries[0].value);
    assert_eq!("n", record.entries[1].key);
    assert_eq!(2, machine.heap.total_allocated_object_count);
}

#[test]
fn number_text_turns_digits_to_bangla() {
    let ast = statements(vec!["দেখাও ১;"]).unwrap();
    let machine = Machine::new();
    assert_eq!("-১২.৫", machine.number_text(&ast, "-12.5").unwrap());
    assert_eq!("০", machine.number_text(&ast, "0").unwrap());
    assert_eq!("", machine.number_text(&ast, "").unwrap());
}

#[test]
fn number_text_rejects_a_foreign_character() {
    let ast = statements(vec!["দেখাও ১;"]).unwrap();
    let machine = Machine::new();
    match machine.number_text(&ast, "inf") {
        Err(PakhiErr::RuntimeError(line, file, message)) => {
            assert_eq!(1, line);
            assert_eq!("test.pakhi", file);
            assert_eq!("Cannot convert 'i' to number", message);
        },
        other => panic!("unexpected result: {:?}", other),
    }
    match machine.number_text(&ast, "1e21") {
        Err(PakhiErr::RuntimeError(_, _, message)) => {
            assert_eq!("Cannot convert 'e' to number", message);
        },
        other => panic!("unexpected result: {:?}", other),
    }
}

#[test]
fn number_text_off_the_end_is_unexpected() {
    let ast: Vec<Stmt> = Vec::new();
    let machine = Machine::new();
    assert_eq!(
        Err(PakhiErr::UnexpectedError("Unexpected error, probably missing ';'".to_string())),
        machine.number_text(&ast, "NaN")
    );
}

#[test]
fn mock_io_read_gives_its_reason() {
    let mut io = MockIO::new();
    assert_eq!(
        Err("MockIO holds no files".to_string()),
        io.read_src_code_from_file("test.pakhi")
    );
}

#[test]
fn element_assignment_with_bracketed_literals() {
    let text = shown(vec![
        "নাম ক = [১, [২, ৩]];",
        "ক[১][০] = \"খ\";",
        "ক[০] = সত্য;",
        "দেখাও ক;",
    ]);
    assert_eq!("[সত্য, [খ, ৩]]\n", text);
}

#[test]
fn built_in_call_with_plain_arguments() {
    let text = shown(vec![
        "নাম ক = [১];",
        "দেখাও _টাইপ(ক);",
        "দেখাও _টাইপ(\"ক\");",
        "দেখাও _লিস্ট-লেন(ক);",
    ]);
    assert_eq!("_লিস্ট\n_স্ট্রিং\n১\n", text);
}

#[test]
fn call_of_what_is_no_function_fails() {
    let ast = statements(vec!["নাম ক = ১;", "ক();"]).unwrap();
    let mut io = Recorder::new();
    let mut host = Host::new();
    match run(ast, &mut io, &mut host) {
        Err(PakhiErr::RuntimeError(2, _, message)) => {
            assert_eq!("Function 'ক' not Declared", message);
        },
        other => panic!("unexpected result: {:?}", other),
    }
}

#[test]
fn call_with_literal_arguments_is_parsed_in_order() {
    let ast = statements(vec!["ফ(১, \"ক\", সত্য);"]).unwrap();
    match &ast[0] {
        Stmt::Expression(parser::Expr::Call(call, 1, _), 1, _) => {
            match &*call.expr {
                parser::Expr::Primary(parser::Primary::Var(name), 1, _) => {
                    assert_eq!("ফ".chars().collect::<Vec<char>>(), name.lexeme);
                },
                other => panic!("unexpected callee: {:?}", other),
            }
            assert_eq!(3, call.arguments.len());
            assert!(matches!(
                &call.arguments[0],
                parser::Expr::Primary(parser::Primary::Num(_), 1, _)
            ));
            match &call.arguments[1] {
                parser::Expr::Primary(parser::Primary::String(s), 1, _) => assert_eq!("ক", s),
                other => panic!("unexpected argument: {:?}", other),
            }
            assert!(matches!(
                &call.arguments[2],
                parser::Expr::Primary(parser::Primary::Bool(true), 1, _)
            ));
        },
        other => panic!("unexpected statement: {:?}", other),
    }
}

#[test]
fn declaration_without_value_and_return_without_value() {
    let ast = statements(vec!["নাম ক;", "ফেরত;"]).unwrap();
    match &ast[0] {
        Stmt::Assignment(a, 1, _) => {
            assert!(a.init_value.is_none());
            assert!(a.indexes.is_empty());
            assert_eq!("ক".chars().collect::<Vec<char>>(), a.var_name.lexeme);
        },
        other => panic!("unexpected statement: {:?}", other),
    }
    assert!(matches!(
        &ast[1],
        Stmt::Return(parser::Expr::Primary(parser::Primary::Nil, 2, _), 2, _)
    ));
}

#[test]
fn element_assignment_with_variable_indexes() {
    let text = shown(vec![
        "নাম ক = [১, ২, ৩];",
        "নাম খ = ২;",
        "ক[খ] = \"গ\";",
        "নাম র = @{\"চ\" -> ১,};",
        "নাম ছ = \"জ\";",
        "র[ছ] = ৫;",
        "দেখাও ক;",
        "দেখাও র[ছ];",
    ]);
    assert_eq!("[১, ২, গ]\n৫\n", text);
}

#[test]
fn element_assignment_out_of_range_fails() {
    let ast = statements(vec!["নাম ক = [১];", "ক[৩] = ২;"]).unwrap();
    let mut io = Recorder::new();
    let mut host = Host::new();
    assert!(matches!(run(ast, &mut io, &mut host), Err(PakhiErr::RuntimeError(2, _, _))));
}

#[test]
fn nested_indexing_reads_the_element() {
    let text = shown(vec![
        "নাম ক = [\"চ\", [\"ছ\", \"জ\"]];",
        "নাম খ = ১;",
        "দেখাও ক[খ][০];",
        "দেখাও ক[০];",
    ]);
    assert_eq!("ছ\nচ\n", text);
}

#[test]
fn indexing_what_is_no_container_is_a_type_error() {
    let ast = statements(vec!["নাম ক = ১;", "দেখাও ক[০];"]).unwrap();
    let mut io = Recorder::new();
    let mut host = Host::new();
    assert!(matches!(run(ast, &mut io, &mut host), Err(PakhiErr::TypeError(2, _, _))));
}

#[test]
fn shadowing_with_strings_is_written_in_order() {
    let text = shown(vec![
        "নাম ক = \"বাইরে\";",
        "{",
        "নাম ক = \"ভিতরে\";",
        "দেখাও ক;",
        "}",
        "দেখাও ক;",
    ]);
    assert_eq!("ভিতরে\nবাইরে\n", text);
}

#[test]
fn function_body_is_not_run_at_its_definition() {
    let text = shown(vec![
        "ফাং ফ() {",
        "দেখাও \"ভিতরে\";",
        "} ফেরত;",
        "দেখাও \"পরে\";",
    ]);
    assert_eq!("পরে\n", text);
}

#[test]
fn break_passes_a_nested_loop() {
    let text = shown(vec![
        "লুপ {",
        "থামাও;",
        "লুপ {",
        "দেখাও \"ক\";",
        "থামাও;",
        "} আবার;",
        "} আবার;",
        "দেখাও \"খ\";",
    ]);
    assert_eq!("খ\n", text);
}

#[test]
fn raised_error_ends_the_run_with_its_message() {
    let ast = statements(vec!["দেখাও \"আগে\";", "_এরর(\"থামো\");", "দেখাও \"পরে\";"]).unwrap();
    let mut io = Recorder::new();
    let mut host = Host::new();
    let outcome = run(ast, &mut io, &mut host);
    assert_eq!(
        Err(PakhiErr::RuntimeError(2, "test.pakhi".to_string(), "থামো".to_string())),
        outcome
    );
    assert_eq!(vec!["আগে\n".to_string()], io.out);
}

#[test]
fn unknown_variable_is_named_in_the_error() {
    let mut io = Recorder::new();
    let mut host = Host::new();
    let ast = statements(vec!["দেখাও খ;"]).unwrap();
    assert_eq!(
        Err(PakhiErr::RuntimeError(
            1,
            "test.pakhi".to_string(),
            "Variable wasn't declared খ".to_string()
        )),
        run(ast, &mut io, &mut host)
    );
    let ast = statements(vec!["খ = ১;"]).unwrap();
    assert_eq!(
        Err(PakhiErr::RuntimeError(
            1,
            "test.pakhi".to_string(),
            "Variable wasn't declared খ".to_string()
        )),
        run(ast, &mut io, &mut host)
    );
}

#[test]
fn pop_at_what_is_no_number_is_a_type_error() {
    let ast = statements(vec!["নাম ক = [১, ২];", "_লিস্ট-পপ(ক, \"খ\");"]).unwrap();
    let mut io = Recorder::new();
    let mut host = Host::new();
    assert_eq!(
        Err(PakhiErr::TypeError(2, "test.pakhi".to_string(), "Index must be a number".to_string())),
        run(ast, &mut io, &mut host)
    );
}

#[test]
fn index_chain_through_what_is_no_container_is_a_type_error() {
    let ast = statements(vec!["নাম ক = [১, ২];", "ক[০][০] = ৩;"]).unwrap();
    let mut io = Recorder::new();
    let mut host = Host::new();
    assert!(matches!(run(ast, &mut io, &mut host), Err(PakhiErr::TypeError(2, _, _))));
    let ast = statements(vec!["নাম ক = [১, ২];", "ক[৫] = ৩;"]).unwrap();
    assert!(matches!(run(ast, &mut io, &mut host), Err(PakhiErr::RuntimeError(2, _, _))));
}

#[test]
fn new_machine_is_fresh() {
    let machine = Machine::new();
    assert_eq!(0, machine.current);
    assert_eq!(1, machine.envs.len());
    assert!(machine.loops.is_empty());
    assert!(machine.return_addrs.is_empty());
    assert!(machine.previous_if_was_executed.is_empty());
    assert!(machine.heap.lists.is_empty());
    assert!(machine.heap.nameless_records.is_empty());
    assert!(machine.heap.free_lists.is_empty());
    assert!(machine.heap.free_nameless_records.is_empty());
    assert_eq!(0, machine.heap.total_allocated_object_count);
    assert_eq!(u64::MAX, machine.steps_left);
}

#[test]
fn lists_and_records_of_strings_are_written_in_pieces() {
    let ast = statements(vec![
        "নাম ক = [\"চ\", সত্য];",
        "দেখাও ক;",
        "নাম র = @{\"k\" -> \"v\",};",
        "_দেখাও র;",
    ]).unwrap();
    let mut io = Recorder::new();
    let mut host = Host::new();
    run(ast, &mut io, &mut host).unwrap();
    assert_eq!(
        vec!["[", "চ", ", ", "সত্য", "]\n", "@{", "\"k\":", "v", ",", "}"],
        io.out.iter().map(|s| s.as_str()).collect::<Vec<&str>>()
    );
}

#[test]
fn value_of_a_call_is_the_value_of_its_return() {
    let text = shown(vec![
        "ফাং ফ(ক, খ) {",
        "{",
        "ফেরত খ;",
        "}",
        "} ফেরত;",
        "দেখাও ফ(\"চ\", \"ছ\");",
        "দেখাও \"পরে\";",
    ]);
    assert_eq!("ছ\nপরে\n", text);
}

#[test]
fn aliased_list_shows_an_assigned_element() {
    let text = shown(vec![
        "নাম ক = [\"চ\", \"ছ\", \"জ\"];",
        "নাম খ = ক;",
        "ক[১] = \"ঝ\";",
        "দেখাও খ[১];",
        "খ[১] = \"ঞ\";",
        "দেখাও ক[১];",
        "দেখাও ক;",
    ]);
    assert_eq!("ঝ\nঞ\n[চ, ঞ, জ]\n", text);
}

#[test]
fn record_literal_keeps_the_later_value_of_a_key() {
    let text = shown(vec![
        "নাম র = @{\"ক\" -> \"চ\", \"খ\" -> \"ছ\", \"ক\" -> \"জ\",};",
        "দেখাও র[\"ক\"];",
        "দেখাও র[\"খ\"];",
    ]);
    assert_eq!("জ\nছ\n", text);
}

#[test]
fn lists_are_joined_in_a_new_list() {
    let text = shown(vec![
        "নাম ক = [\"চ\"];",
        "নাম খ = [\"ছ\"];",
        "নাম গ = ক + খ;",
        "গ[০] = \"জ\";",
        "দেখাও ক;",
        "দেখাও গ;",
    ]);
    assert_eq!("[চ]\n[জ, ছ]\n", text);
}

#[test]
fn left_operand_fails_before_the_right_is_evaluated() {
    let ast = statements(vec![
        "ফাং ফ() {",
        "দেখাও \"ডান\";",
        "ফেরত ১;",
        "} ফেরত;",
        "দেখাও অজানা + ফ();",
    ])
    .unwrap();
    let mut io = Recorder::new();
    let mut host = Host::new();
    assert!(matches!(run(ast, &mut io, &mut host), Err(PakhiErr::RuntimeError(5, _, _))));
    assert!(io.out.is_empty());
}

#[test]
fn record_field_assignment_is_read_back() {
    let ast = statements(vec![
        "নাম ক = @{\"key\" -> ১,};",
        "ক[\"key\"] = \"s\";",
        "দেখাও ক[\"key\"];",
    ])
    .unwrap();
    let mut io = MockIO::new();
    io.expect_println("s");
    let mut host = Host::new();
    let mut session = Interpreter::new(ast, &mut io, &mut host);
    assert_eq!(Ok(()), session.run());
    assert!(io.assert_all_true());
}

#[test]
fn push_and_pop_change_the_list_that_all_names_share() {
    let text = shown(vec![
        "নাম ক = [\"চ\", \"ছ\"];",
        "নাম খ = ক;",
        "_লিস্ট-পুশ(ক, \"জ\");",
        "দেখাও খ;",
        "_লিস্ট-পুশ(ক, ০, \"ঝ\");",
        "দেখাও খ;",
        "_লিস্ট-পপ(খ, ১);",
        "দেখাও ক;",
        "_লিস্ট-পপ(খ);",
        "দেখাও ক;",
    ]);
    assert_eq!("[চ, ছ, জ]\n[ঝ, চ, ছ, জ]\n[ঝ, ছ, জ]\n[ঝ, ছ]\n", text);
}
