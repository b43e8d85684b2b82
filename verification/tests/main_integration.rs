use pakhi::common::io::{MockIO, IO};
use pakhi::common::number::Num;
use pakhi::common::pakhi_error::PakhiErr;
use pakhi::common::platform::Platform;
use pakhi::start_pakhi;

const ROOT: &str = "/work/__tmp";

fn normal(path: &str) -> String {
    let mut parts: Vec<&str> = Vec::new();
    for part in path.split('/') {
        if part == "." || part.is_empty() {
            continue;
        }
        parts.push(part);
    }
    format!("/{}", parts.join("/"))
}

fn num(value: f64) -> Num {
    Num { bits: value.to_bits() }
}

fn val(n: Num) -> f64 {
    f64::from_bits(n.bits)
}

// Files and directories in memory, in the order in which they were made.
struct Host {
    files: Vec<(String, String)>,
    dirs: Vec<String>,
}

impl Host {
    fn position(&self, path: &str) -> Option<usize> {
        let path = normal(path);
        self.files.iter().position(|(name, _)| *name == path)
    }
}

impl Platform for Host {
    fn add(&self, a: Num, b: Num) -> Num {
        num(val(a) + val(b))
    }

    fn sub(&self, a: Num, b: Num) -> Num {
        num(val(a) - val(b))
    }

    fn mul(&self, a: Num, b: Num) -> Num {
        num(val(a) * val(b))
    }

    fn div(&self, a: Num, b: Num) -> Num {
        num(val(a) / val(b))
    }

    fn rem(&self, a: Num, b: Num) -> Num {
        num(val(a) % val(b))
    }

    fn powf(&self, a: Num, b: Num) -> Num {
        num(val(a).powf(val(b)))
    }

    fn num_to_string(&self, n: Num) -> String {
        val(n).to_string()
    }

    fn parse_num(&self, text: &str) -> Result<Num, String> {
        match text.parse::<f64>() {
            Ok(v) => Ok(num(v)),
            Err(e) => Err(format!("{:?}", e)),
        }
    }

    fn read_line(&mut self) -> Result<String, String> {
        Err("end of input".to_string())
    }

    fn read_file(&mut self, path: &str) -> Result<String, String> {
        match self.position(path) {
            Some(i) => Ok(self.files[i].1.clone()),
            None => Err("No such file or directory".to_string()),
        }
    }

    fn write_file(&mut self, path: &str, content: &str) -> Result<(), String> {
        match self.position(path) {
            Some(i) => self.files[i].1 = content.to_string(),
            None => self.files.push((normal(path), content.to_string())),
        }
        Ok(())
    }

    fn delete_file(&mut self, path: &str) -> Result<(), String> {
        match self.position(path) {
            Some(i) => {
                self.files.remove(i);
                Ok(())
            }
            None => Err("No such file or directory".to_string()),
        }
    }

    fn create_dir(&mut self, path: &str) -> Result<(), String> {
        let dir = normal(path);
        if !self.dirs.contains(&dir) {
            self.dirs.push(dir);
        }
        Ok(())
    }

    fn read_dir(&mut self, path: &str) -> Result<Vec<String>, String> {
        let dir = normal(path);
        if !self.dirs.contains(&dir) {
            return Err("No such file or directory".to_string());
        }
        let prefix = format!("{}/", dir);
        let mut names = Vec::new();
        for (name, _) in self.files.iter() {
            if let Some(rest) = name.strip_prefix(&prefix) {
                if !rest.contains('/') {
                    names.push(rest.to_string());
                }
            }
        }
        Ok(names)
    }

    fn delete_dir(&mut self, path: &str) -> Result<(), String> {
        let dir = normal(path);
        match self.dirs.iter().position(|d| *d == dir) {
            Some(i) => {
                self.dirs.remove(i);
                let prefix = format!("{}/", dir);
                self.files.retain(|(name, _)| !name.starts_with(&prefix));
                Ok(())
            }
            None => Err("No such file or directory".to_string()),
        }
    }

    fn is_file(&mut self, path: &str) -> Result<bool, String> {
        if self.position(path).is_some() {
            Ok(true)
        } else if self.dirs.contains(&normal(path)) {
            Ok(false)
        } else {
            Err("No such file or directory".to_string())
        }
    }

    fn join_path(&self, base: &str, rest: &str) -> String {
        if rest.starts_with('/') || base.is_empty() {
            rest.to_string()
        } else if base.ends_with('/') {
            format!("{}{}", base, rest)
        } else {
            format!("{}/{}", base, rest)
        }
    }

    fn file_name(&self, path: &str) -> String {
        match path.rfind('/') {
            Some(i) => path[i + 1..].to_string(),
            None => path.to_string(),
        }
    }

    fn parent_dir(&self, path: &str) -> String {
        match path.rfind('/') {
            Some(i) => path[..i].to_string(),
            None => String::new(),
        }
    }

    fn absolute_parent_dir(&self, path: &str) -> String {
        self.parent_dir(&normal(path))
    }
}

// An `IO` that reads modules from memory and hands everything else to a
// `MockIO`.
struct FileIO {
    mock: MockIO,
    files: Vec<(String, String)>,
}

impl IO for FileIO {
    fn new() -> FileIO {
        FileIO { mock: MockIO::new(), files: Vec::new() }
    }

    fn print(&mut self, m: &str) {
        self.mock.print(m)
    }

    fn println(&mut self, m: &str) {
        self.mock.println(m)
    }

    fn read_src_code_from_file(&mut self, file_path: &str) -> Result<String, String> {
        let path = normal(file_path);
        match self.files.iter().find(|(name, _)| *name == path) {
            Some((_, content)) => Ok(content.clone()),
            None => Err("No such file or directory".to_string()),
        }
    }

    fn panic(&mut self, err: PakhiErr) {
        self.mock.panic(err)
    }
}

struct World {
    host: Host,
}

impl World {
    fn new() -> World {
        World { host: Host { files: Vec::new(), dirs: vec![ROOT.to_string()] } }
    }

    fn create_file(&mut self, file_name: &str, lines: Vec<&str>) {
        let l: String = lines.join("\n");
        self.host.write_file(&format!("{}/{}", ROOT, file_name), &l).unwrap();
    }

    fn has_file(&self, file_name: &str) -> bool {
        self.host.position(&format!("{}/{}", ROOT, file_name)).is_some()
    }

    fn run_module(&mut self, module_name: &str, mock: MockIO) {
        let mut io = FileIO { mock, files: self.host.files.clone() };
        let path = format!("{}/{}", ROOT, module_name);
        let outcome = start_pakhi(path, &mut io, &mut self.host);
        if let Err(err) = outcome {
            match err {
                PakhiErr::SyntaxError(_, _, m) => panic!("{}", m),
                PakhiErr::TypeError(_, _, m) => panic!("{}", m),
                PakhiErr::RuntimeError(_, _, m) => panic!("{}", m),
                PakhiErr::UnexpectedError(m) => panic!("{}", m),
            }
        }
        assert!(io.mock.assert_all_true());
    }
}

#[test]
fn module_import() {
    let mut world = World::new();
    world.create_file("test.pakhi", vec![
        r#"মডিউল ম = "module.pakhi";"#,
        "দেখাও ম/ক;",
    ]);
    world.create_file("module.pakhi", vec![
        "নাম ক = ২;",
        "দেখাও ক;",
    ]);

    let mut mock_io: MockIO = MockIO::new();
    mock_io.expect_println("২");
    mock_io.expect_println("২");
    world.run_module("test.pakhi", mock_io);
}

#[test]
#[should_panic(expected="Cyclic module dependency. Can't import root.pakhi from module.pakhi")]
fn module_import_cyclic() {
    let mut world = World::new();
    world.create_file("root.pakhi", vec![
        r#"মডিউল ম = "module.pakhi";"#,
    ]);
    world.create_file("module.pakhi", vec![
        r#"মডিউল ম = "root.pakhi";"#,
    ]);

    let mock_io: MockIO = MockIO::new();
    world.run_module("root.pakhi", mock_io);
}

#[test]
fn built_in_fn_read_file() {
    let mut world = World::new();
    world.create_file("test.txt", vec![
        "test passed",
    ]);
    world.create_file("test.pakhi", vec![
        "দেখাও _রিড-ফাইল(_ডাইরেক্টরি + \"./test.txt\");",
    ]);

    let mut mock_io: MockIO = MockIO::new();
    mock_io.expect_println("test passed");
    world.run_module("test.pakhi", mock_io);
}

#[test]
fn built_in_fn_write_file() {
    let mut world = World::new();
    world.create_file("test.pakhi", vec![
        "_রাইট-ফাইল(_ডাইরেক্টরি + \"./test.txt\", \"test passed\");",
        "দেখাও _রিড-ফাইল(_ডাইরেক্টরি + \"./test.txt\");",
    ]);

    let mut mock_io: MockIO = MockIO::new();
    mock_io.expect_println("test passed");
    world.run_module("test.pakhi", mock_io);
}

#[test]
fn built_in_fn_delete_file() {
    let mut world = World::new();
    world.create_file("test.txt", vec![
        "test passed",
    ])
    ;world.create_file("test.pakhi", vec![
        "দেখাও _ডিলিট-ফাইল(_ডাইরেক্টরি + \"./test.txt\");",
    ]);

    // The script shows what the deletion returns.
    let mut mock_io: MockIO = MockIO::new();
    mock_io.expect_println("সত্য");
    world.run_module("test.pakhi", mock_io);
    assert!(!world.has_file("test.txt"));
}

#[test]
fn built_in_fn_read_dir() {
    let mut world = World::new();
    // create_file creates file ./tmp folder
    world.create_file("test.txt", vec!["test passed"]);
    world.create_file("test.pakhi", vec![
        "নাম ডার = _রিড-ডাইরেক্টরি(_ডাইরেক্টরি + \"./\");",
        "দেখাও ডার[০];"
    ]);

    let mut mock_io: MockIO = MockIO::new();
    mock_io.expect_println("test.txt");
    world.run_module("test.pakhi", mock_io);
}

#[test]
fn built_in_fn_create_dir() {
    let mut world = World::new();
    world.create_file("test.pakhi", vec![
        "_নতুন-ডাইরেক্টরি(_ডাইরেক্টরি + \"./test\");",
        "_রাইট-ফাইল(_ডাইরেক্টরি + \"./test/test.txt\", \"test passed\");",
        "নাম ড = _রিড-ডাইরেক্টরি(_ডাইরেক্টরি + \"./test\");",
        "দেখাও ড;"
    ]);

    let mut mock_io: MockIO = MockIO::new();
    // A list is written piece by piece.
    mock_io.expect_print("[");
    mock_io.expect_print("test.txt");
    mock_io.expect_println("]");
    world.run_module("test.pakhi", mock_io);
}

#[test]
#[should_panic]
fn built_in_fn_delete_dir() {
    let mut world = World::new();
    world.create_file("test.pakhi", vec![
        "_নতুন-ডাইরেক্টরি(_ডাইরেক্টরি + \"./test\");",
        "_ডিলিট-ডাইরেক্টরি(_ডাইরেক্টরি + \"./test\")",
        "_রিড-ডাইরেক্টরি(_ডাইরেক্টরি + \"./test\");",
    ]);

    let mock_io: MockIO = MockIO::new();
    world.run_module("test.pakhi", mock_io);
}

#[test]
fn built_in_fn_file_or_dir() {
    let mut world = World::new();
    world.create_file("test.pakhi", vec![
        "_নতুন-ডাইরেক্টরি(_ডাইরেক্টরি + \"./test\");",
        "_রাইট-ফাইল(_ডাইরেক্টরি + \"./test.txt\", \"test passed\");",
        "দেখাও _ফাইল-নাকি-ডাইরেক্টরি(_ডাইরেক্টরি + \"./test.txt\");",
        "দেখাও _ফাইল-নাকি-ডাইরেক্টরি(_ডাইরেক্টরি + \"./test\");",
    ]);

    let mut mock_io: MockIO = MockIO::new();
    mock_io.expect_println("ফাইল");
    mock_io.expect_println("ডাইরেক্টরি");
    world.run_module("test.pakhi", mock_io);
}