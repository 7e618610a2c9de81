//! Command scenarios, run against the library's actions on an in-memory
//! project. `Quartz::cmd` reads a command line the way the program does and
//! calls the action it names; older spellings of the commands (`context`,
//! `variable --set`, `headers --add`, `url --get`, `status --endpoint`, ...)
//! are read as the commands that replaced them.
use std::cell::RefCell;

use quartz_cli::action::{body, config, copy, handle, header, init, ls, query, show, var};
use quartz_cli::cli::{BodyCmd, Cmd, ConfigCmd, EnvCmd, HeaderCmd, HeaderEnvCmd, QueryCmd, ShowCmd, SnippetCmd, VarCmd};
use quartz_cli::snippet::Curl;
use quartz_cli::config::{Config, SystemEnv};
use quartz_cli::context::Context;
use quartz_cli::endpoint::EndpointPatch;
use quartz_cli::project::Project;
use quartz_cli::{Ctx, CtxArgs, QuartzCode, QuartzError, QuartzResult};

type TestResult = Result<(), String>;

struct Output {
    success: bool,
    stdout: String,
    stderr: String,
}

struct Status {
    ok: bool,
}

impl Status {
    fn success(&self) -> bool {
        self.ok
    }
}

struct CmdOutput {
    status: Status,
    stdout: String,
    stderr: String,
}

struct Store {
    project: Project,
    config: Config,
    initialized: bool,
}

struct Quartz {
    store: RefCell<Store>,
}

fn new_project() -> Project {
    let mut project = Project::new();
    project.add_env(Context::default());
    project
}

fn patch_of(args: &[String]) -> (EndpointPatch, Vec<String>, Vec<String>) {
    let mut patch = EndpointPatch::new();
    let mut flags = Vec::new();
    let mut positional = Vec::new();
    let mut i = 0;
    while i < args.len() {
        let a = args[i].as_str();
        match a {
            "--url" => {
                patch.url = Some(args[i + 1].clone());
                i += 2;
            }
            "-X" | "--request" | "--method" => {
                patch.method = Some(args[i + 1].clone());
                i += 2;
            }
            "-H" | "--header" => {
                patch.headers.push(args[i + 1].clone());
                i += 2;
            }
            "-q" | "--query" => {
                patch.query.push(args[i + 1].clone());
                i += 2;
            }
            "-r" | "--recursive" | "--use" | "--empty" => {
                flags.push(a.to_string());
                i += 1;
            }
            _ => {
                positional.push(a.to_string());
                i += 1;
            }
        }
    }
    (patch, flags, positional)
}

fn err_text(e: &QuartzError) -> String {
    match e {
        QuartzError::Internal => "internal failure".to_string(),
        QuartzError::Message(m) => m.clone(),
    }
}

/// Reads a command line written in the current spelling as a command.
fn parse(args: &[String]) -> Option<Cmd> {
    let name = args[0].as_str();
    let rest: Vec<String> = args[1..].to_vec();
    let sub = rest.get(0).map(|s| s.as_str()).unwrap_or("");
    let tail: Vec<String> = if rest.is_empty() { vec![] } else { rest[1..].to_vec() };
    let command = match name {
        "init" => Cmd::Init(init::Args { directory: None }),
        "create" => {
            let (config, flags, positional) = patch_of(&rest);
            let handle = positional.get(0).cloned().unwrap_or_default();
            Cmd::Create(handle::CreateArgs { handle, config, switch: flags.iter().any(|f| f == "--use") })
        }
        "use" => {
            let (config, flags, positional) = patch_of(&rest);
            Cmd::Use(handle::SwitchArgs {
                handle: positional.get(0).cloned(),
                config,
                empty: flags.iter().any(|f| f == "--empty"),
            })
        }
        "ls" | "list" => {
            let mut depth = None;
            let mut h = None;
            let mut i = 0;
            while i < rest.len() {
                if rest[i] == "--depth" {
                    depth = rest[i + 1].parse::<usize>().ok();
                    i += 2;
                } else {
                    h = Some(rest[i].clone());
                    i += 1;
                }
            }
            Cmd::Ls(ls::Args { handle: h, depth })
        }
        "cp" | "copy" => {
            let (_, flags, positional) = patch_of(&rest);
            Cmd::Cp(copy::CpArgs {
                recursive: !flags.is_empty(),
                src: positional[0].clone(),
                dest: positional[1].clone(),
            })
        }
        "mv" | "move" => Cmd::Mv(copy::MvArgs { handles: rest.clone() }),
        "rm" | "remove" => {
            let (_, flags, positional) = patch_of(&rest);
            Cmd::Rm(handle::RmArgs { handles: positional, recursive: !flags.is_empty() })
        }
        "show" => Cmd::Show {
            command: match sub {
                "url" => ShowCmd::Url,
                "method" => ShowCmd::Method,
                "handle" => ShowCmd::Handle,
                "env" | "ctx" => ShowCmd::Env,
                "headers" => ShowCmd::Headers { key: tail.get(0).cloned() },
                "query" => ShowCmd::Query { key: tail.get(0).cloned() },
                "body" => ShowCmd::Body,
                "snippet" => {
                    let mut variables = Vec::new();
                    let mut i = 0;
                    while i < tail.len() && (tail[i] == "--var" || tail[i] == "-v") {
                        variables.push(tail[i + 1].clone());
                        i += 2;
                    }
                    let command = match tail.get(i).map(|s| s.as_str()) {
                        Some("curl") => SnippetCmd::Curl(Curl {
                            long: tail[i + 1..].iter().any(|f| f == "--long"),
                            multiline: tail[i + 1..].iter().any(|f| f == "--multiline"),
                        }),
                        Some("http") => SnippetCmd::Http,
                        _ => return None,
                    };
                    ShowCmd::Snippet(quartz_cli::action::snippet::Args {
                        variables,
                        patch: EndpointPatch::new(),
                        command,
                    })
                }
                _ => return None,
            },
        },
        "query" => Cmd::Query {
            command: match sub {
                "get" => QueryCmd::Get(query::GetArgs { key: tail[0].clone() }),
                "set" => QueryCmd::Put(query::SetArgs { queries: tail.clone() }),
                "rm" | "remove" => QueryCmd::Rm(query::RmArgs { keys: tail.clone() }),
                "ls" | "list" => QueryCmd::Ls,
                _ => return None,
            },
        },
        "header" | "headers" => Cmd::Header {
            command: match sub {
                "get" => HeaderCmd::Get { key: tail[0].clone() },
                "set" => HeaderCmd::Put { header: tail.clone() },
                "rm" | "remove" => HeaderCmd::Rm { key: tail.clone() },
                "ls" | "list" => HeaderCmd::Ls,
                _ => return None,
            },
        },
        "var" | "variable" => Cmd::Var {
            command: match sub {
                "get" => VarCmd::Get(var::GetArgs { key: tail[0].clone() }),
                "set" => VarCmd::Put(var::SetArgs { variables: tail.clone() }),
                "rm" | "remove" => VarCmd::Rm(var::RmArgs { keys: tail.clone() }),
                "ls" | "list" => VarCmd::Ls,
                _ => return None,
            },
        },
        "env" | "ctx" | "context" => Cmd::Env {
            command: match sub {
                "create" => EnvCmd::Create(quartz_cli::action::env::CreateArgs { name: tail[0].clone() }),
                "use" => EnvCmd::Use(quartz_cli::action::env::SwitchArgs { env: tail[0].clone() }),
                "ls" | "list" => EnvCmd::Ls,
                "rm" | "remove" => EnvCmd::Rm(quartz_cli::action::env::RmArgs { env: tail[0].clone() }),
                "cp" | "copy" => EnvCmd::Cp(quartz_cli::action::env::CpArgs {
                    src: tail[0].clone(),
                    dest: tail[1].clone(),
                }),
                "header" => {
                    let hsub = tail.get(0).map(|s| s.as_str()).unwrap_or("");
                    let htail: Vec<String> = if tail.is_empty() { vec![] } else { tail[1..].to_vec() };
                    EnvCmd::Header {
                        command: match hsub {
                            "set" => HeaderEnvCmd::Put { headers: htail },
                            "ls" | "list" => HeaderEnvCmd::Ls,
                            "rm" | "remove" => {
                                HeaderEnvCmd::Rm(quartz_cli::action::env::HeaderRmArgs { keys: htail })
                            }
                            _ => return None,
                        },
                    }
                }
                _ => return None,
            },
        },
        "config" => Cmd::Config {
            command: match sub {
                "get" => ConfigCmd::Get(config::GetArgs { key: tail[0].clone() }),
                "set" => ConfigCmd::Put(config::SetArgs { key: tail[0].clone(), value: tail[1].clone() }),
                _ => return None,
            },
        },
        "body" if rest.len() == 1 => Cmd::Body(body::Args {
            format: None,
            command: match sub {
                "show" => BodyCmd::Show,
                "stdin" => BodyCmd::Stdin,
                _ => return None,
            },
        }),
        _ => return None,
    };
    Some(command)
}

/// Runs one command through the library's dispatch, testing first whether
/// the program stops on it, and carries out what it hands back.
fn run_cmd(ctx: &mut Ctx, command: Cmd, input: Option<&str>, initialized: &mut bool) -> QuartzResult {
    // The program stops on what the library does not run; test that first.
    if let Some(e) = quartz_cli::action::refusal(ctx, &command) {
        return Err(e);
    }
    match quartz_cli::action::cmd(ctx, command)? {
        None => Ok(()),
        Some(Cmd::Init(a)) => {
            if *initialized {
                return Err(QuartzError::Message("quartz already initialized at .".to_string()));
            }
            let plan = init::cmd(a, false, ctx.colors());
            let _ = plan;
            *initialized = true;
            Ok(())
        }
        Some(Cmd::Body(a)) => match a.command {
            BodyCmd::Stdin => body::stdin(ctx, input.unwrap_or("").to_string()),
            _ => Err(QuartzError::Message("body edit needs an editor".to_string())),
        },
        Some(_) => Err(QuartzError::Message("command needs the file system".to_string())),
    }
}

/// Runs a command line: one in the current spelling as it reads, an older
/// one as the commands that replaced it.
fn run(ctx: &mut Ctx, args: &[String], input: Option<&str>, initialized: &mut bool) -> QuartzResult {
    if let Some(c) = parse(args) {
        return run_cmd(ctx, c, input, initialized);
    }
    let name = args[0].as_str();
    let rest: Vec<String> = args[1..].to_vec();
    let sub = rest.get(0).map(|s| s.as_str()).unwrap_or("");
    let tail: Vec<String> = if rest.is_empty() { vec![] } else { rest[1..].to_vec() };
    let show = |command: ShowCmd| Cmd::Show { command };
    let switch_with = |url: Option<String>, method: Option<String>| {
        let mut config = EndpointPatch::new();
        config.url = url;
        config.method = method;
        Cmd::Use(handle::SwitchArgs { handle: None, config, empty: false })
    };
    match name {
        "status" => match sub {
            "--endpoint" => run_cmd(ctx, show(ShowCmd::Handle), input, initialized),
            _ => run_cmd(ctx, show(ShowCmd::Env), input, initialized),
        },
        "query" if sub.is_empty() => run_cmd(ctx, show(ShowCmd::Query { key: None }), input, initialized),
        "header" | "headers" => {
            // The flags of the older `headers` command, in their order.
            let mut adds = Vec::new();
            let mut removes = Vec::new();
            let mut list = false;
            let mut i = 0;
            while i < rest.len() {
                match rest[i].as_str() {
                    "--add" => {
                        adds.push(rest[i + 1].clone());
                        i += 2;
                    }
                    "--remove" => {
                        removes.push(rest[i + 1].clone());
                        i += 2;
                    }
                    _ => {
                        list = true;
                        i += 1;
                    }
                }
            }
            if !adds.is_empty() {
                run_cmd(ctx, Cmd::Header { command: HeaderCmd::Put { header: adds } }, input, initialized)?;
            }
            if !removes.is_empty() {
                // The older command removed silently.
                let before = ctx.stdout.clone();
                run_cmd(ctx, Cmd::Header { command: HeaderCmd::Rm { key: removes } }, input, initialized)?;
                ctx.stdout = before;
            }
            if list {
                run_cmd(ctx, Cmd::Header { command: HeaderCmd::Ls }, input, initialized)?;
            }
            Ok(())
        }
        "var" | "variable" => match sub {
            "--set" => run_cmd(
                ctx,
                Cmd::Var { command: VarCmd::Put(var::SetArgs { variables: tail.clone() }) },
                input,
                initialized,
            ),
            "--get" => run_cmd(
                ctx,
                Cmd::Var { command: VarCmd::Get(var::GetArgs { key: tail[0].clone() }) },
                input,
                initialized,
            ),
            _ => Err(QuartzError::Message(format!("unknown var {sub}"))),
        },
        "env" | "ctx" | "context" if sub == "header" && tail.get(0).map(|s| s.as_str()) == Some("get") => {
            quartz_cli::action::env::header_get(ctx, tail[1].clone())
        }
        "body" => {
            for flag in rest.iter() {
                let command = match flag.as_str() {
                    "--stdin" | "stdin" => BodyCmd::Stdin,
                    "--print" | "show" => BodyCmd::Show,
                    _ => continue,
                };
                run_cmd(ctx, Cmd::Body(body::Args { format: None, command }), input, initialized)?;
            }
            Ok(())
        }
        "url" => match sub {
            "--set" => run_cmd(ctx, switch_with(Some(tail[0].clone()), None), input, initialized),
            _ => run_cmd(ctx, show(ShowCmd::Url), input, initialized),
        },
        "method" => match sub {
            "--set" => run_cmd(ctx, switch_with(None, Some(tail[0].clone())), input, initialized),
            _ => run_cmd(ctx, show(ShowCmd::Method), input, initialized),
        },
        _ => Err(QuartzError::Message(format!("unknown command {name}"))),
    }
}

impl Quartz {
    fn default() -> Quartz {
        Quartz {
            store: RefCell::new(Store {
                project: Project::new(),
                config: Config::default(),
                initialized: false,
            }),
        }
    }

    fn preset_empty_project() -> Result<Quartz, String> {
        let q = Quartz::default();
        q.cmd(&["init"]);
        q.store.borrow_mut().project = new_project();
        Ok(q)
    }

    fn preset_using_default_context() -> Result<Quartz, String> {
        Quartz::preset_empty_project()
    }

    fn preset_using_default_env() -> Result<Quartz, String> {
        Quartz::preset_empty_project()
    }

    fn preset_using_sample_endpoint() -> Result<Quartz, String> {
        let q = Quartz::preset_empty_project()?;
        let out = q.cmd(&["create", "sample", "--url", "https://httpbin.org/get", "--use"]);
        assert!(out.status.success(), "{}", out.stderr);
        Ok(q)
    }

    fn preset_httpbin() -> Result<Quartz, String> {
        let q = Quartz::preset_empty_project()?;
        q.cmd(&["var", "set", "BASE_URL=https://httpbin.org"]);
        q.cmd(&["create", "httpbin/get", "--url", "{{BASE_URL}}/get"]);
        q.cmd(&["create", "httpbin/post", "--url", "{{BASE_URL}}/post", "-X", "POST"]);
        q.cmd(&["create", "httpbin/redirect/absolute", "--url", "{{BASE_URL}}/absolute-redirect/2"]);
        q.cmd(&["create", "httpbin/redirect/relative", "--url", "{{BASE_URL}}/relative-redirect/2"]);
        Ok(q)
    }

    fn dir_exists(&self) -> bool {
        self.store.borrow().initialized
    }

    fn run_line(&self, args: &[&str], input: Option<&str>) -> Output {
        let mut store = self.store.borrow_mut();
        let mut from_handle = None;
        let mut early = false;
        let mut i = 0;
        while i < args.len() {
            match args[i] {
                "-x" => {
                    from_handle = Some(args[i + 1].to_string());
                    i += 2;
                }
                "-c" | "--apply-environment" | "--apply-context" => {
                    early = true;
                    i += 1;
                }
                _ => break,
            }
        }
        let words: Vec<String> = args[i..].iter().map(|s| s.to_string()).collect();
        if words.is_empty() {
            return Output { success: false, stdout: String::new(), stderr: "missing command".into() };
        }
        let project = std::mem::replace(&mut store.project, Project::new());
        let config = std::mem::replace(&mut store.config, Config::default());
        let mut ctx = Ctx::new(
            CtxArgs { from_handle, early_apply_environment: early },
            config,
            "/project/.quartz",
            project,
            SystemEnv { home: None, editor: None, pager: None, no_color: false },
        );
        let mut initialized = store.initialized;
        let res = run(&mut ctx, &words, input, &mut initialized);
        store.initialized = initialized;
        let mut stderr = ctx.stderr.clone();
        if let Err(e) = &res {
            stderr.push_str("error: ");
            stderr.push_str(&err_text(e));
        }
        let success = res.is_ok() && ctx.exit_code() == QuartzCode::Success;
        let stdout = ctx.stdout.clone();
        store.project = ctx.project;
        store.config = ctx.config;
        Output { success, stdout, stderr }
    }

    fn cmd(&self, args: &[&str]) -> CmdOutput {
        let o = self.run_line(args, None);
        CmdOutput { status: Status { ok: o.success }, stdout: o.stdout, stderr: o.stderr }
    }

    fn cmd_stdin(&self, args: &[&str], input: &str) -> CmdOutput {
        let o = self.run_line(args, Some(input));
        CmdOutput { status: Status { ok: o.success }, stdout: o.stdout, stderr: o.stderr }
    }
}

// ---------------------------------------------------------------------------
// Environments (also under their older name, contexts)
// ---------------------------------------------------------------------------

#[test]
fn context_it_starts_with_default_context() -> TestResult {
    let quartz = Quartz::preset_empty_project()?;
    let output = quartz.cmd(&["show", "ctx"]);
    assert!(output.status.success(), "{}", output.stderr);
    assert_eq!(output.stdout.trim(), "default");
    Ok(())
}

#[test]
fn it_starts_with_default_context() -> TestResult {
    let quartz = Quartz::preset_using_sample_endpoint()?;
    let output = quartz.cmd(&["status", "--context"]);
    assert!(output.status.success(), "{}", output.stderr);
    assert_eq!(output.stdout.trim(), "default");
    Ok(())
}

#[test]
fn context_it_can_create_context() -> TestResult {
    let quartz = Quartz::preset_empty_project()?;
    let output = quartz.cmd(&["ctx", "create", "example"]);
    let list = quartz.cmd(&["ctx", "list"]);
    assert!(output.status.success(), "{}", output.stderr);
    assert!(list.stdout.contains("example"), "new context did not show on list");
    Ok(())
}

#[test]
fn it_can_create_context() -> TestResult {
    let quartz = Quartz::preset_using_sample_endpoint()?;
    let output = quartz.cmd(&["context", "create", "example"]);
    let list = quartz.cmd(&["context", "list"]);
    assert!(output.status.success(), "{}", output.stderr);
    assert!(list.stdout.contains("example"), "new context did not show on list");
    Ok(())
}

#[test]
fn context_it_can_switch_between_contexts() -> TestResult {
    let quartz = Quartz::preset_empty_project()?;
    quartz.cmd(&["ctx", "create", "example"]);
    quartz.cmd(&["ctx", "create", "lorem"]);
    let assert_use = |name: &str| -> TestResult {
        let output = quartz.cmd(&["ctx", "use", name]);
        let status = quartz.cmd(&["show", "ctx"]);
        assert!(output.status.success(), "{}", output.stderr);
        assert_eq!(status.stdout.trim(), name, "did not switch to {}", name);
        Ok(())
    };
    assert_use("lorem")?;
    assert_use("example")?;
    assert_use("lorem")?;
    assert_use("default")?;
    Ok(())
}

#[test]
fn it_can_switch_between_contexts() -> TestResult {
    let quartz = Quartz::preset_using_sample_endpoint()?;
    quartz.cmd(&["context", "create", "example"]);
    quartz.cmd(&["context", "create", "lorem"]);
    let assert_use = |name: &str| -> TestResult {
        let output = quartz.cmd(&["context", "use", name]);
        let status = quartz.cmd(&["status", "--context"]);
        assert!(output.status.success(), "{}", output.stderr);
        assert_eq!(status.stdout.trim(), name, "did not switch to {}", name);
        Ok(())
    };
    assert_use("lorem")?;
    assert_use("example")?;
    assert_use("lorem")?;
    assert_use("default")?;
    Ok(())
}

#[test]
fn context_it_can_not_use_unexistent_context() -> TestResult {
    let quartz = Quartz::preset_empty_project()?;
    let output = quartz.cmd(&["ctx", "use", "idontexist"]);
    assert!(!output.status.success(), "{}", "it allowed using unexistent context");
    let status = quartz.cmd(&["show", "ctx"]);
    assert_ne!(status.stdout.trim(), "idontexist", "it is using unexistent context");
    Ok(())
}

#[test]
fn it_can_not_use_unexistent_context() -> TestResult {
    let quartz = Quartz::preset_using_sample_endpoint()?;
    let output = quartz.cmd(&["context", "use", "idontexist"]);
    assert!(!output.status.success(), "{}", "it allowed using unexistent context");
    let status = quartz.cmd(&["status", "--context"]);
    assert_ne!(status.stdout.trim(), "idontexist", "it is using unexistent context");
    Ok(())
}

#[test]
fn it_can_remove_context() -> TestResult {
    let quartz = Quartz::preset_empty_project()?;
    quartz.cmd(&["context", "create", "example"]);
    let output = quartz.cmd(&["context", "remove", "example"]);
    assert!(output.status.success(), "{}", output.stderr);
    let list = quartz.cmd(&["context", "list"]);
    assert!(!list.stdout.contains("example"), "example context is still listed");
    Ok(())
}

#[test]
fn it_cannot_remove_unexistent_context() -> TestResult {
    let quartz = Quartz::preset_empty_project()?;
    let output = quartz.cmd(&["context", "remove", "example"]);
    assert!(!output.status.success(), "did not exit with error");
    Ok(())
}

#[test]
fn context_it_cannot_create_duplicate() -> TestResult {
    let quartz = Quartz::preset_empty_project()?;
    quartz.cmd(&["context", "create", "example"]);
    quartz.cmd(&["context", "create", "lorem"]);
    let output = quartz.cmd(&["context", "create", "example"]);
    assert!(!output.status.success(), "{}", "it allowed to create duplicate");
    Ok(())
}

#[test]
fn it_starts_with_default_env() -> TestResult {
    let quartz = Quartz::preset_empty_project()?;
    let output = quartz.cmd(&["show", "env"]);
    assert!(output.status.success(), "{}", output.stderr);
    assert_eq!(output.stdout.trim(), "default");
    Ok(())
}

#[test]
fn it_can_create_env() -> TestResult {
    let quartz = Quartz::preset_empty_project()?;
    let output = quartz.cmd(&["env", "create", "example"]);
    let list = quartz.cmd(&["env", "list"]);
    assert!(output.status.success(), "{}", output.stderr);
    assert!(list.stdout.contains("example"), "new env did not show on list");
    Ok(())
}

#[test]
fn it_can_switch_between_envs() -> TestResult {
    let quartz = Quartz::preset_empty_project()?;
    quartz.cmd(&["env", "create", "example"]);
    quartz.cmd(&["env", "create", "lorem"]);
    let assert_use = |name: &str| -> TestResult {
        let output = quartz.cmd(&["env", "use", name]);
        let status = quartz.cmd(&["show", "env"]);
        assert!(output.status.success(), "{}", output.stderr);
        assert_eq!(status.stdout.trim(), name, "did not switch to {}", name);
        Ok(())
    };
    assert_use("lorem")?;
    assert_use("example")?;
    assert_use("lorem")?;
    assert_use("default")?;
    Ok(())
}

#[test]
fn it_can_not_use_unexistent_env() -> TestResult {
    let quartz = Quartz::preset_empty_project()?;
    let output = quartz.cmd(&["env", "use", "idontexist"]);
    assert!(!output.status.success(), "{}", "it allowed using unexistent env");
    let status = quartz.cmd(&["show", "env"]);
    assert_ne!(status.stdout.trim(), "idontexist", "it is using unexistent env");
    Ok(())
}

#[test]
fn it_can_remove_env() -> TestResult {
    let quartz = Quartz::preset_empty_project()?;
    quartz.cmd(&["env", "create", "example"]);
    let output = quartz.cmd(&["env", "remove", "example"]);
    assert!(output.status.success(), "{}", output.stderr);
    let list = quartz.cmd(&["env", "list"]);
    assert!(!list.stdout.contains("example"), "example env is still listed");
    Ok(())
}

#[test]
fn it_cannot_remove_unexistent_env() -> TestResult {
    let quartz = Quartz::preset_empty_project()?;
    let output = quartz.cmd(&["env", "remove", "example"]);
    assert!(!output.status.success(), "did not exit with error");
    Ok(())
}

#[test]
fn env_it_cannot_create_duplicate() -> TestResult {
    let quartz = Quartz::preset_empty_project()?;
    quartz.cmd(&["env", "create", "example"]);
    quartz.cmd(&["env", "create", "lorem"]);
    let output = quartz.cmd(&["env", "create", "example"]);
    assert!(!output.status.success(), "{}", "it allowed to create duplicate");
    Ok(())
}

#[test]
fn it_create_headers() -> TestResult {
    let quartz = Quartz::preset_empty_project()?;
    quartz.cmd(&["env", "header", "set", "Header1: Value1"]);
    quartz.cmd(&["env", "header", "set", "Header2: Value2"]);
    let output = quartz.cmd(&["env", "header", "get", "Header1"]);
    assert_eq!(output.stdout.trim(), "Value1");
    let output = quartz.cmd(&["env", "header", "get", "Header2"]);
    assert_eq!(output.stdout.trim(), "Value2");
    Ok(())
}

// ---------------------------------------------------------------------------
// Endpoints
// ---------------------------------------------------------------------------

#[test]
fn endpoints_it_creates_empty_endpoint() -> TestResult {
    let quartz = Quartz::preset_empty_project()?;
    let sample_endpoint = "myendpoint";
    let output = quartz.cmd(&["create", sample_endpoint]);
    let list = quartz.cmd(&["list"]).stdout;
    assert!(output.status.success(), "{}", output.stderr);
    assert!(list.contains(sample_endpoint), "Endpoint was not properly created");
    Ok(())
}

#[test]
fn it_creates_empty_endpoint() -> TestResult {
    let sample_endpoint = "myendpoint";
    let quartz = Quartz::default();
    quartz.cmd(&["init"]);
    quartz.store.borrow_mut().project = new_project();
    let output = quartz.cmd(&["create", sample_endpoint]);
    let list = quartz.cmd(&["list"]).stdout;
    assert!(output.status.success(), "{}", output.stderr);
    assert!(list.contains(sample_endpoint), "Endpoint was not properly created");
    Ok(())
}

#[test]
fn endpoints_it_creates_endpoint_with_url() -> TestResult {
    let quartz = Quartz::preset_empty_project()?;
    let sample_endpoint = "myendpoint";
    let sample_url = "https://httpbin.org/get";
    let create_output = quartz.cmd(&["create", sample_endpoint, "--url", sample_url]);
    assert!(create_output.status.success(), "{}", create_output.stderr);
    quartz.cmd(&["use", sample_endpoint]);
    let url_output = quartz.cmd(&["show", "url"]);
    assert_eq!(url_output.stdout.trim(), sample_url.trim());
    Ok(())
}

#[test]
fn it_creates_endpoint_with_url() -> TestResult {
    let sample_endpoint = "myendpoint";
    let sample_url = "https://httpbin.org/get";
    let quartz = Quartz::preset_empty_project()?;
    let create_output = quartz.cmd(&["create", sample_endpoint, "--url", sample_url]);
    assert!(create_output.status.success(), "{}", create_output.stderr);
    quartz.cmd(&["use", sample_endpoint]);
    let url_output = quartz.cmd(&["url", "--get"]);
    assert_eq!(url_output.stdout.trim(), sample_url.trim());
    Ok(())
}

#[test]
fn endpoints_it_creates_endpoint_with_method() -> TestResult {
    let quartz = Quartz::preset_empty_project()?;
    let sample_endpoint = "myendpoint";
    let sample_url = "https://httpbin.org/get";
    let method = "POST";
    let create_output = quartz.cmd(&["create", sample_endpoint, "--url", sample_url, "-X", method]);
    assert!(create_output.status.success(), "{}", create_output.stderr);
    quartz.cmd(&["use", sample_endpoint]);
    let method_output = quartz.cmd(&["show", "method"]);
    assert_eq!(method_output.stdout.trim(), method);
    Ok(())
}

#[test]
fn it_creates_endpoint_with_method() -> TestResult {
    let sample_endpoint = "myendpoint";
    let sample_url = "https://httpbin.org/get";
    let method = "POST";
    let quartz = Quartz::preset_empty_project()?;
    let create_output =
        quartz.cmd(&["create", sample_endpoint, "--url", sample_url, "--method", method]);
    assert!(create_output.status.success(), "{}", create_output.stderr);
    quartz.cmd(&["use", sample_endpoint]);
    let method_output = quartz.cmd(&["method", "--get"]);
    assert_eq!(method_output.stdout.trim(), method);
    Ok(())
}

#[test]
fn endpoints_it_creates_endpoint_with_header() -> TestResult {
    let quartz = Quartz::preset_empty_project()?;
    let sample_endpoint = "myendpoint";
    let create_output = quartz.cmd(&[
        "create",
        sample_endpoint,
        "--url",
        sample_endpoint,
        "--header",
        "Content-type: application/json",
    ]);
    assert!(create_output.status.success(), "{}", create_output.stderr);
    quartz.cmd(&["use", sample_endpoint]);
    let method_output = quartz.cmd(&["header", "ls"]);
    assert!(method_output.stdout.contains("Content-type: application/json"));
    Ok(())
}

#[test]
fn it_creates_endpoint_with_header() -> TestResult {
    let sample_endpoint = "myendpoint";
    let quartz = Quartz::preset_empty_project()?;
    quartz.cmd(&[
        "create",
        sample_endpoint,
        "--url",
        sample_endpoint,
        "--header",
        "Content-type: application/json",
    ]);
    quartz.cmd(&["use", sample_endpoint]);
    let method_output = quartz.cmd(&["headers", "--list"]);
    assert!(method_output.stdout.contains("Content-type: application/json"));
    Ok(())
}

#[test]
fn it_creates_endpoint_with_query() -> TestResult {
    let quartz = Quartz::preset_empty_project()?;
    let sample_endpoint = "myendpoint";
    let create_output = quartz.cmd(&[
        "create",
        sample_endpoint,
        "--url",
        sample_endpoint,
        "--query",
        "myvariable=true",
    ]);
    assert!(create_output.status.success(), "{}", create_output.stderr);
    quartz.cmd(&["use", sample_endpoint]);
    let output = quartz.cmd(&["query", "get", "myvariable"]);
    assert_eq!(output.stdout.trim(), "true");
    Ok(())
}

fn create_with_headers_listed_by(list_args: &[&str]) -> TestResult {
    let quartz = Quartz::preset_empty_project()?;
    let sample_endpoint = "myendpoint";
    let create_output = quartz.cmd(&[
        "create",
        sample_endpoint,
        "--url",
        sample_endpoint,
        "--header",
        "Content-type: application/json",
        "--header",
        "Accept: application/json",
    ]);
    assert!(create_output.status.success(), "{}", create_output.stderr);
    quartz.cmd(&["use", sample_endpoint]);
    let method_output = quartz.cmd(list_args);
    assert!(
        method_output.stdout.contains("Content-type: application/json"),
        "missing first header"
    );
    assert!(method_output.stdout.contains("Accept: application/json"), "missing second header");
    Ok(())
}

#[test]
fn endpoints_it_creates_endpoint_with_multiple_headers() -> TestResult {
    create_with_headers_listed_by(&["header", "ls"])
}

#[test]
fn it_creates_endpoint_with_multiple_headers() -> TestResult {
    create_with_headers_listed_by(&["headers", "--list"])
}

#[test]
fn it_creates_nested_endpoints() -> TestResult {
    let quartz = Quartz::preset_empty_project()?;
    let output = quartz.cmd(&[
        "create",
        "myendpoint/childendpoint",
        "--url",
        "https://this-is-the-nested-one.com",
    ]);
    assert!(output.status.success(), "{}", output.stderr);
    let output = quartz.cmd(&["use", "myendpoint/childendpoint"]);
    assert!(output.status.success(), "{}", output.stderr);
    let output = quartz.cmd(&["show", "url"]);
    assert_eq!(
        output.stdout.trim(),
        "https://this-is-the-nested-one.com",
        "could not use nested endpoint"
    );
    Ok(())
}

#[test]
fn it_does_not_allow_create_without_handle() -> TestResult {
    let quartz = Quartz::preset_empty_project()?;
    let create_output = quartz.cmd(&["create"]);
    assert!(!create_output.status.success(), "created endpoint without handle");
    Ok(())
}

#[test]
fn it_does_not_allow_create_without_reference() -> TestResult {
    let quartz = Quartz::default();
    quartz.cmd(&["init"]);
    quartz.store.borrow_mut().project = new_project();
    let create_output = quartz.cmd(&["create"]);
    assert!(!create_output.status.success(), "created endpoint without reference");
    Ok(())
}

fn create_duplicate_shown_by(show_args: &[&str]) -> TestResult {
    let quartz = Quartz::preset_empty_project()?;
    quartz.cmd(&["create", "myendpoint", "--url", "https://original/"]);
    let duplicate_create_output =
        quartz.cmd(&["create", "myendpoint", "--url", "https://overwritten/"]);
    quartz.cmd(&["use", "myendpoint"]);
    let url_output = quartz.cmd(show_args);
    assert_ne!(
        url_output.stdout.trim(),
        "https://overwritten/",
        "duplicate overwrote original endpoint data"
    );
    assert!(!duplicate_create_output.status.success(), "created duplicate endpoint");
    Ok(())
}

#[test]
fn endpoints_it_does_not_allow_create_duplicate() -> TestResult {
    create_duplicate_shown_by(&["show", "url"])
}

#[test]
fn it_does_not_allow_create_duplicate() -> TestResult {
    create_duplicate_shown_by(&["url", "--get"])
}

#[test]
fn it_can_run_from_another_handle() -> TestResult {
    let quartz = Quartz::preset_using_sample_endpoint()?;
    quartz.cmd(&["create", "anotherendpoint"]);
    let output = quartz.cmd(&["-x", "anotherendpoint", "status", "--endpoint"]);
    assert!(output.status.success(), "{}", output.stderr);
    assert_eq!(output.stdout.trim(), "anotherendpoint", "did not use desired handle");
    let output = quartz.cmd(&["status", "--endpoint"]);
    assert_ne!(
        output.stdout.trim(),
        "anotherendpoint",
        "changed endpoint state instead of only running once"
    );
    Ok(())
}

#[test]
fn use_can_set_properties() -> TestResult {
    let quartz = Quartz::preset_using_sample_endpoint()?;
    let output = quartz.cmd(&[
        "use",
        "-X",
        "POST",
        "-H",
        "Content-type: application/json",
        "-H",
        "Accept: application/json",
        "-q",
        "value=true",
    ]);
    assert!(output.status.success(), "{}", output.stderr);
    Ok(())
}

#[test]
fn it_gets_endpoint_method() -> TestResult {
    let quartz = Quartz::preset_using_sample_endpoint()?;
    let method_output = quartz.cmd(&["method", "--get"]);
    assert_eq!(method_output.stdout.trim(), "GET", "{}", method_output.stderr);
    Ok(())
}

#[test]
fn it_sets_new_endpoint_method() -> TestResult {
    let quartz = Quartz::preset_using_sample_endpoint()?;
    let set_method_output = quartz.cmd(&["method", "--set", "POST"]);
    let method_output = quartz.cmd(&["method", "--get"]);
    assert!(set_method_output.status.success(), "{}", method_output.stderr);
    assert_eq!(method_output.stdout.trim(), "POST", "{}", method_output.stderr);
    Ok(())
}

#[test]
fn it_gets_endpoint_url() -> TestResult {
    let quartz = Quartz::preset_using_sample_endpoint()?;
    let url_output = quartz.cmd(&["url", "--get"]);
    assert_eq!(url_output.stdout.trim(), "https://httpbin.org/get", "{}", url_output.stderr);
    Ok(())
}

#[test]
fn it_sets_new_endpoint_url() -> TestResult {
    let quartz = Quartz::preset_using_sample_endpoint()?;
    let set_url_output = quartz.cmd(&["url", "--set", "https://www.google.com/"]);
    let url_output = quartz.cmd(&["url", "--get"]);
    assert!(set_url_output.status.success(), "{}", url_output.stderr);
    assert_eq!(url_output.stdout.trim(), "https://www.google.com/", "{}", url_output.stderr);
    Ok(())
}

// ---------------------------------------------------------------------------
// Initialization
// ---------------------------------------------------------------------------

#[test]
fn init_it_initializes_quartz() -> TestResult {
    let quartz = Quartz::default();
    let output = quartz.cmd(&["init"]);
    assert!(output.status.success(), "{}", output.stdout);
    assert!(quartz.dir_exists(), ".quartz was not created");
    Ok(())
}

#[test]
fn it_initializes_quartz() -> TestResult {
    let quartz = Quartz::default();
    let output = quartz.cmd(&["init"]);
    assert!(output.status.success(), "{}", output.stderr);
    assert!(quartz.dir_exists(), ".quartz was not created");
    Ok(())
}

#[test]
fn init_quartz() -> TestResult {
    let quartz = Quartz::default();
    let status = quartz.cmd(&["init"]).status;
    assert!(status.success(), "init command failed");
    assert!(quartz.dir_exists(), ".quartz was not created");
    Ok(())
}

#[test]
fn it_cant_init_over_other() -> TestResult {
    let quartz = Quartz::preset_empty_project()?;
    let output = quartz.cmd(&["init"]);
    assert!(!output.status.success(), "{}", output.stdout);
    Ok(())
}

// ---------------------------------------------------------------------------
// Query parameters
// ---------------------------------------------------------------------------

#[test]
fn it_can_set_query_param() -> TestResult {
    let quartz = Quartz::preset_using_sample_endpoint()?;
    let set_output = quartz.cmd(&["query", "set", "_v=99890"]);
    let get_output = quartz.cmd(&["query", "get", "_v"]);
    assert!(set_output.status.success(), "{}", set_output.stderr);
    assert_eq!(get_output.stdout.trim(), "99890", "did not store query param");
    Ok(())
}

#[test]
fn it_can_set_query_param_with_intentional_equals_sign() -> TestResult {
    let quartz = Quartz::preset_using_sample_endpoint()?;
    let set_output = quartz.cmd(&["query", "set", "where=email=example@email.com"]);
    let get_output = quartz.cmd(&["query", "get", "where"]);
    assert!(set_output.status.success(), "{}", set_output.stderr);
    assert_eq!(
        get_output.stdout.trim(),
        "email=example@email.com",
        "did not store query param correctly"
    );
    Ok(())
}

#[test]
fn it_can_remove_query() -> TestResult {
    let quartz = Quartz::preset_using_sample_endpoint()?;
    quartz.cmd(&["query", "set", "fields=example"]);
    let remove_output = quartz.cmd(&["query", "rm", "fields"]);
    let get_output = quartz.cmd(&["query", "get", "fields"]);
    assert!(remove_output.status.success(), "{}", remove_output.stderr);
    assert_eq!(get_output.stdout.trim(), "", "did not removed query");
    Ok(())
}

#[test]
fn it_outputs_resolved_string() -> TestResult {
    let quartz = Quartz::preset_using_sample_endpoint()?;
    quartz.cmd(&["query", "set", "_v=99890", "fields=lorem,ipsum", "helloString=true"]);
    let output = quartz.cmd(&["query"]);
    assert!(output.status.success(), "{}", output.stderr);
    assert_eq!(
        output.stdout.trim(),
        "_v=99890&fields=lorem,ipsum&helloString=true",
        "did not match queries"
    );
    Ok(())
}

#[test]
fn compatible_with_apply_context_option() -> TestResult {
    let quartz = Quartz::preset_using_sample_endpoint()?;
    quartz.cmd(&["var", "set", "someQuery=yay"]);
    quartz.cmd(&["query", "set", "version={{someQuery}}"]);
    let output = quartz.cmd(&["--apply-context", "query", "get", "version"]);
    assert!(output.status.success(), "{}", output.stderr);
    assert_eq!(output.stdout.trim(), "yay");
    let output = quartz.cmd(&["--apply-context", "query"]);
    assert!(output.status.success(), "{}", output.stderr);
    assert_eq!(output.stdout.trim(), "version=yay");
    Ok(())
}

// ---------------------------------------------------------------------------
// Bodies
// ---------------------------------------------------------------------------

const SAMPLE_BODY_1: &'static str = r#"
{
    "example": 123
}
"#;

const SAMPLE_BODY_2: &'static str = r#"
{
    "prop": {
        "hello": 123
    },
    "sample": "lorem ipsum"
}
"#;

#[test]
fn it_accepts_json_from_stdin() -> TestResult {
    let quartz = Quartz::preset_using_sample_endpoint()?;
    let output = quartz.cmd_stdin(&["body", "--stdin"], SAMPLE_BODY_1);
    assert!(output.status.success(), "{}", output.stderr);
    let output = quartz.cmd(&["body", "--print"]);
    assert_eq!(output.stdout.trim(), SAMPLE_BODY_1.trim());
    Ok(())
}

#[test]
fn it_chains_stdin_and_print() -> TestResult {
    let quartz = Quartz::preset_using_sample_endpoint()?;
    let output = quartz.cmd_stdin(&["body", "--stdin", "--print"], SAMPLE_BODY_1);
    assert!(output.status.success(), "{}", output.stderr);
    assert_eq!(output.stdout.trim(), SAMPLE_BODY_1.trim());
    Ok(())
}

#[test]
fn it_changes_existent_body() -> TestResult {
    let quartz = Quartz::preset_using_sample_endpoint()?;
    quartz.cmd_stdin(&["body", "--stdin"], SAMPLE_BODY_1);
    let output = quartz.cmd_stdin(&["body", "--stdin", "--print"], SAMPLE_BODY_2);
    assert!(output.status.success(), "{}", output.stderr);
    assert_ne!(output.stdout.trim(), SAMPLE_BODY_1.trim(), "it preserved the first body");
    assert_eq!(
        output.stdout.trim(),
        SAMPLE_BODY_2.trim(),
        "did not update body with correct value"
    );
    Ok(())
}

// ---------------------------------------------------------------------------
// Variables
// ---------------------------------------------------------------------------

#[test]
fn context_variable_it_can_create_variables() -> TestResult {
    let quartz = Quartz::preset_using_default_context()?;
    let output = quartz.cmd(&["variable", "--set", "baseUrl=localhost"]);
    assert!(output.status.success(), "{}", output.stderr);
    let output = quartz.cmd(&["variable", "--get", "baseUrl"]);
    assert_eq!(output.stdout.trim(), "localhost", "did not save variable correctly");
    Ok(())
}

#[test]
fn context_variable_it_ignores_outer_single_quotes() -> TestResult {
    let quartz = Quartz::preset_using_default_context()?;
    let set_output = quartz.cmd(&["variable", "--set", "baseUrl='localhost'"]);
    let get_output = quartz.cmd(&["variable", "--get", "baseUrl"]);
    assert!(set_output.status.success(), "{}", set_output.stderr);
    assert_eq!(get_output.stdout.trim(), "localhost", "did not save variable correctly");
    Ok(())
}

#[test]
fn context_variable_it_ignores_outer_double_quotes() -> TestResult {
    let quartz = Quartz::preset_using_default_context()?;
    let set_output = quartz.cmd(&["variable", "--set", "baseUrl=\"localhost\""]);
    let get_output = quartz.cmd(&["variable", "--get", "baseUrl"]);
    assert!(set_output.status.success(), "{}", set_output.stderr);
    assert_eq!(get_output.stdout.trim(), "localhost", "did not save variable correctly");
    Ok(())
}

#[test]
fn context_variable_it_can_overwrite_existing_variables() -> TestResult {
    let quartz = Quartz::preset_using_default_context()?;
    quartz.cmd(&["variable", "--set", "baseUrl=localhost"]);
    let set_output = quartz.cmd(&["variable", "--set", "baseUrl=128.0.0.1"]);
    let get_output = quartz.cmd(&["variable", "--get", "baseUrl"]);
    assert!(set_output.status.success(), "{}", set_output.stderr);
    assert_eq!(get_output.stdout.trim(), "128.0.0.1", "did not overwrote variable value");
    Ok(())
}

#[test]
fn each_context_has_its_own_variables() -> TestResult {
    let quartz = Quartz::preset_using_default_context()?;
    quartz.cmd(&["variable", "--set", "baseUrl=localhost"]);
    quartz.cmd(&["context", "create", "example"]);
    quartz.cmd(&["context", "use", "example"]);
    let output = quartz.cmd(&["variable", "--get", "baseUrl"]);
    assert_ne!(output.stdout.trim(), "localhost", "");
    quartz.cmd(&["context", "use", "default"]);
    let output = quartz.cmd(&["variable", "--get", "baseUrl"]);
    assert_eq!(output.stdout.trim(), "localhost");
    Ok(())
}

#[test]
fn var_it_can_create_variables() -> TestResult {
    let quartz = Quartz::preset_using_default_env()?;
    let output = quartz.cmd(&["var", "set", "baseUrl=localhost"]);
    assert!(output.status.success(), "{}", output.stderr);
    let output = quartz.cmd(&["var", "get", "baseUrl"]);
    assert_eq!(output.stdout.trim(), "localhost", "did not save variable correctly");
    Ok(())
}

#[test]
fn it_can_set_multiple_variables() -> TestResult {
    let quartz = Quartz::preset_using_default_env()?;
    let output = quartz.cmd(&["var", "set", "baseUrl=localhost", "scheme=https"]);
    assert!(output.status.success(), "{}", output.stderr);
    let output = quartz.cmd(&["variable", "get", "baseUrl"]);
    assert_eq!(output.stdout.trim(), "localhost", "did not save first variable correctly");
    let output = quartz.cmd(&["variable", "get", "scheme"]);
    assert_eq!(output.stdout.trim(), "https", "did not save second variable correctly");
    Ok(())
}

#[test]
fn var_it_ignores_outer_single_quotes() -> TestResult {
    let quartz = Quartz::preset_using_default_env()?;
    let set_output = quartz.cmd(&["variable", "set", "baseUrl='localhost'"]);
    let get_output = quartz.cmd(&["variable", "get", "baseUrl"]);
    assert!(set_output.status.success(), "{}", set_output.stderr);
    assert_eq!(get_output.stdout.trim(), "localhost", "did not save variable correctly");
    Ok(())
}

#[test]
fn var_it_ignores_outer_double_quotes() -> TestResult {
    let quartz = Quartz::preset_using_default_env()?;
    let set_output = quartz.cmd(&["variable", "set", "baseUrl=\"localhost\""]);
    let get_output = quartz.cmd(&["variable", "get", "baseUrl"]);
    assert!(set_output.status.success(), "{}", set_output.stderr);
    assert_eq!(get_output.stdout.trim(), "localhost", "did not save variable correctly");
    Ok(())
}

#[test]
fn var_it_can_overwrite_existing_variables() -> TestResult {
    let quartz = Quartz::preset_using_default_env()?;
    quartz.cmd(&["variable", "set", "baseUrl=localhost"]);
    let set_output = quartz.cmd(&["variable", "set", "baseUrl=128.0.0.1"]);
    let get_output = quartz.cmd(&["variable", "get", "baseUrl"]);
    assert!(set_output.status.success(), "{}", set_output.stderr);
    assert_eq!(get_output.stdout.trim(), "128.0.0.1", "did not overwrote variable value");
    Ok(())
}

#[test]
fn each_env_has_its_own_variables() -> TestResult {
    let quartz = Quartz::preset_using_default_env()?;
    quartz.cmd(&["variable", "set", "baseUrl=localhost"]);
    quartz.cmd(&["env", "create", "example"]);
    quartz.cmd(&["env", "use", "example"]);
    let output = quartz.cmd(&["variable", "get", "baseUrl"]);
    assert_ne!(output.stdout.trim(), "localhost", "");
    quartz.cmd(&["env", "use", "default"]);
    let output = quartz.cmd(&["variable", "get", "baseUrl"]);
    assert_eq!(output.stdout.trim(), "localhost");
    Ok(())
}

#[test]
fn it_can_remove_variable() -> TestResult {
    let quartz = Quartz::preset_using_default_env()?;
    quartz.cmd(&["var", "set", "baseUrl=localhost"]);
    let output = quartz.cmd(&["var", "rm", "baseUrl"]);
    let get_output = quartz.cmd(&["var", "get", "baseUrl"]);
    assert!(output.status.success(), "{}", output.stderr);
    assert!(get_output.stdout.is_empty(), "{:?}", output.stdout);
    Ok(())
}

#[test]
fn it_can_remove_multiple_variable() -> TestResult {
    let quartz = Quartz::preset_using_default_env()?;
    quartz.cmd(&["var", "set", "baseUrl=localhost", "other=true", "flag=on"]);
    let output = quartz.cmd(&["var", "rm", "baseUrl", "flag"]);
    assert!(output.status.success(), "{}", output.stderr);
    let output = quartz.cmd(&["var", "ls"]);
    assert!(output.stdout.contains("other=true"), "{}", output.stdout);
    assert!(!output.stdout.contains("baseUrl"), "{}", output.stdout);
    assert!(!output.stdout.contains("flag"), "{}", output.stdout);
    Ok(())
}

// ---------------------------------------------------------------------------
// Headers
// ---------------------------------------------------------------------------

#[test]
fn headers_it_adds_new_header() -> TestResult {
    let quartz = Quartz::preset_using_sample_endpoint()?;
    let headers_add_output = quartz.cmd(&["headers", "--add", "Content-type: application/json"]);
    let headers_output = quartz.cmd(&["headers", "--list"]);
    assert!(headers_add_output.status.success(), "{}", headers_add_output.stdout);
    assert!(headers_output.stdout.contains("Content-type: application/json"));
    Ok(())
}

#[test]
fn headers_it_adds_multiple_new_header() -> TestResult {
    let quartz = Quartz::preset_using_sample_endpoint()?;
    let sample_headers =
        vec!["Content-type: application/json", "Accept: application/json", "X-API-key: myexample"];
    let headers_add_output = quartz.cmd(&[
        "headers",
        "--add",
        sample_headers[0],
        "--add",
        sample_headers[1],
        "--add",
        sample_headers[2],
    ]);
    let headers_output = quartz.cmd(&["headers", "--list"]);
    assert!(headers_add_output.status.success(), "{}", headers_add_output.stdout);
    for header in sample_headers {
        assert!(headers_output.stdout.contains(header));
    }
    Ok(())
}

#[test]
fn headers_it_overwrites_existing_headers() -> TestResult {
    let quartz = Quartz::preset_using_sample_endpoint()?;
    quartz.cmd(&[
        "headers",
        "--add",
        "Content-type: application/json",
        "--add",
        "Accept: application/json",
    ]);
    let headers_edit_output = quartz.cmd(&["headers", "--add", "Content-type: plain/text"]);
    let headers_output = quartz.cmd(&["headers", "--list"]);
    assert!(headers_edit_output.status.success(), "{}", headers_edit_output.stdout);
    assert!(!headers_output.stdout.contains("Content-type: application/json"), "old value found");
    assert!(headers_output.stdout.contains("Content-type: plain/text"), "new value was not saved");
    Ok(())
}

#[test]
fn headers_it_removes_header_by_key() -> TestResult {
    let quartz = Quartz::preset_using_sample_endpoint()?;
    quartz.cmd(&["headers", "--add", "Content-type: application/json", "--add", "Accept: form"]);
    let remove_output = quartz.cmd(&["headers", "--remove", "Content-type", "--list"]);
    assert!(remove_output.status.success(), "{}", remove_output.stderr);
    assert!(!remove_output.stdout.contains("Content-type"), "did not remove specified header");
    assert!(
        remove_output.stdout.contains("Accept"),
        "removed specified header, but unrelated header is missing"
    );
    Ok(())
}

#[test]
fn headers_it_does_not_allow_invalid_header_format() -> TestResult {
    let quartz = Quartz::preset_using_sample_endpoint()?;
    let headers_output = quartz.cmd(&["headers", "--add", "Content-type"]);
    assert!(!headers_output.status.success(), "allowed header without value separation");
    let headers_output = quartz.cmd(&["headers", "--add", "Content-type = application/json"]);
    assert!(!headers_output.status.success(), "allowed header with incorrect key-value separation");
    let headers_output = quartz.cmd(&["headers", "--add", "Content-type:application/json"]);
    assert!(
        !headers_output.status.success(),
        "allowed header without proper spacing between key and value"
    );
    Ok(())
}

#[test]
fn header_it_adds_new_header() -> TestResult {
    let quartz = Quartz::preset_using_sample_endpoint()?;
    let set_output = quartz.cmd(&["header", "set", "Content-type: application/json"]);
    let output = quartz.cmd(&["header", "get", "Content-type"]);
    assert!(set_output.status.success(), "{}", set_output.stderr);
    assert_eq!(output.stdout.trim(), "application/json");
    Ok(())
}

#[test]
fn header_it_adds_multiple_new_header() -> TestResult {
    let quartz = Quartz::preset_using_sample_endpoint()?;
    let sample_headers =
        vec!["Content-type: application/json", "Accept: application/json", "X-API-key: myexample"];
    let headers_add_output =
        quartz.cmd(&["header", "set", sample_headers[0], sample_headers[1], sample_headers[2]]);
    let output = quartz.cmd(&["header", "ls"]);
    assert!(headers_add_output.status.success(), "{}", headers_add_output.stdout);
    for header in sample_headers {
        assert!(output.stdout.contains(header));
    }
    Ok(())
}

#[test]
fn header_it_overwrites_existing_headers() -> TestResult {
    let quartz = Quartz::preset_using_sample_endpoint()?;
    quartz.cmd(&["header", "set", "Content-type: application/json", "Accept: application/json"]);
    let edit_output = quartz.cmd(&["header", "set", "Content-type: plain/text"]);
    let list_output = quartz.cmd(&["header", "ls"]);
    assert!(edit_output.status.success(), "{}", edit_output.stdout);
    assert!(!list_output.stdout.contains("Content-type: application/json"), "old value found");
    assert!(list_output.stdout.contains("Content-type: plain/text"), "new value was not saved");
    Ok(())
}

#[test]
fn header_it_removes_header_by_key() -> TestResult {
    let quartz = Quartz::preset_using_sample_endpoint()?;
    quartz.cmd(&["header", "set", "Content-type: application/json", "Accept: form"]);
    let remove_output = quartz.cmd(&["header", "rm", "Content-type"]);
    let output = quartz.cmd(&["header", "ls"]);
    assert!(remove_output.status.success(), "{}", remove_output.stderr);
    assert!(!output.stdout.contains("Content-type"), "did not remove specified header");
    assert!(output.stdout.contains("Accept"), "removed specified header, but unrelated header is missing");
    Ok(())
}

#[test]
fn header_it_does_not_allow_invalid_header_format() -> TestResult {
    let quartz = Quartz::preset_using_sample_endpoint()?;
    let output = quartz.cmd(&["header", "set", "Content-type"]);
    assert!(!output.status.success(), "allowed header without value separation");
    let output = quartz.cmd(&["header", "set", "Content-type = application/json"]);
    assert!(!output.status.success(), "allowed header with incorrect key-value separation");
    let output = quartz.cmd(&["headers", "set", "Content-type:application/json"]);
    assert!(!output.status.success(), "allowed header without proper spacing between key and value");
    Ok(())
}

#[test]
fn compatible_with_apply_env_option() -> TestResult {
    let quartz = Quartz::preset_using_sample_endpoint()?;
    quartz.cmd(&["var", "set", "contentType=application/json"]);
    quartz.cmd(&["header", "set", "Content-type: {{contentType}}"]);
    let output = quartz.cmd(&["--apply-environment", "header", "get", "Content-type"]);
    assert!(output.status.success(), "{}", output.stderr);
    assert_eq!(output.stdout.trim(), "application/json");
    Ok(())
}

// ---------------------------------------------------------------------------
// Configuration
// ---------------------------------------------------------------------------

#[test]
fn it_can_get_values() -> TestResult {
    let quartz = Quartz::preset_empty_project()?;
    let output = quartz.cmd(&["config", "get", "ui.colors"]);
    assert!(output.status.success(), "command exit with error");
    Ok(())
}

#[test]
fn get_fails_on_invalid_key() -> TestResult {
    let quartz = Quartz::preset_empty_project()?;
    let output = quartz.cmd(&["config", "get", "no.colors"]);
    assert!(!output.status.success(), "command exit without error");
    Ok(())
}

#[test]
fn it_can_set_value() -> TestResult {
    let quartz = Quartz::preset_empty_project()?;
    let set_output = quartz.cmd(&["config", "set", "preferences.editor", "emacs"]);
    let get_output = quartz.cmd(&["config", "get", "preferences.editor"]);
    assert!(set_output.status.success(), "{}", set_output.stderr);
    assert_eq!(get_output.stdout.trim(), "emacs", "did not save new value");
    Ok(())
}

#[test]
fn it_can_not_set_invalid_key() -> TestResult {
    let quartz = Quartz::preset_empty_project()?;
    let set_output = quartz.cmd(&["config", "set", "example.editor", "emacs"]);
    assert!(!set_output.status.success(), "command exit without error");
    Ok(())
}

// ---------------------------------------------------------------------------
// Handle operations
// ---------------------------------------------------------------------------

#[test]
fn cp() -> TestResult {
    let quartz = Quartz::preset_httpbin()?;
    let output = quartz.cmd(&["cp", "httpbin/post", "httpbin/patch"]);
    assert!(output.status.success(), "{}", output.stderr);
    let output = quartz.cmd(&["-x", "httpbin/patch", "show", "url"]);
    assert!(output.status.success(), "{}", output.stderr);
    assert_eq!(output.stdout.trim(), "{{BASE_URL}}/post", "{}", output.stderr);
    let output = quartz.cmd(&["-x", "httpbin/patch", "show", "method"]);
    assert_eq!(output.stdout.trim(), "POST", "{}", output.stdout);
    Ok(())
}

#[test]
fn cp_wo_r_only_copies_specified() -> TestResult {
    let quartz = Quartz::preset_httpbin()?;
    let output = quartz.cmd(&["cp", "httpbin/redirect", "httpbin/recurse"]);
    assert!(output.status.success(), "{}", output.stderr);
    let stdout = quartz.cmd(&["ls"]).stdout;
    assert!(stdout.contains("httpbin/recurse"), "{}", stdout);
    assert!(!stdout.contains("httpbin/recurse/absolute"), "{}", stdout);
    assert!(!stdout.contains("httpbin/recurse/relative"), "{}", stdout);
    Ok(())
}

#[test]
fn cp_r() -> TestResult {
    let quartz = Quartz::preset_httpbin()?;
    let output = quartz.cmd(&["cp", "-r", "httpbin/redirect", "httpbin/recurse"]);
    assert!(output.status.success(), "{}", output.stderr);
    let stdout = quartz.cmd(&["ls"]).stdout;
    assert!(stdout.contains("httpbin/recurse"), "{}", stdout);
    assert!(stdout.contains("httpbin/recurse/absolute"), "{}", stdout);
    assert!(stdout.contains("httpbin/recurse/relative"), "{}", stdout);
    Ok(())
}

#[test]
fn cp_empty() -> TestResult {
    let quartz = Quartz::preset_httpbin()?;
    let output = quartz.cmd(&["cp", "-r", "httpbin", "https"]);
    assert!(output.status.success(), "{}", output.stderr);
    let stdout = quartz.cmd(&["ls"]).stdout;
    assert!(stdout.contains("https/get"), "{}", stdout);
    assert!(stdout.contains("https/post"), "{}", stdout);
    assert!(stdout.contains("https/redirect"), "{}", stdout);
    assert!(stdout.contains("https/redirect/absolute"), "{}", stdout);
    assert!(stdout.contains("https/redirect/relative"), "{}", stdout);
    Ok(())
}

#[test]
fn rm() -> TestResult {
    let quartz = Quartz::preset_httpbin()?;
    let output = quartz.cmd(&["rm", "httpbin/post"]);
    assert!(output.status.success(), "{}", output.stderr);
    let output = quartz.cmd(&["use", "httpbin/post"]);
    assert!(!output.status.success(), "{}", output.stdout);
    Ok(())
}

#[test]
fn rm_wo_r_err() -> TestResult {
    let quartz = Quartz::preset_httpbin()?;
    let output = quartz.cmd(&["rm", "httpbin/redirect"]);
    assert!(!output.status.success(), "{}", output.stdout);
    let stdout = quartz.cmd(&["ls"]).stdout;
    assert!(stdout.contains("httpbin/redirect"), "{}", stdout);
    assert!(stdout.contains("httpbin/redirect/absolute"), "{}", stdout);
    assert!(stdout.contains("httpbin/redirect/relative"), "{}", stdout);
    Ok(())
}

#[test]
fn rm_r() -> TestResult {
    let quartz = Quartz::preset_httpbin()?;
    let output = quartz.cmd(&["rm", "-r", "httpbin/redirect"]);
    assert!(!output.status.success(), "{}", output.stdout);
    let stdout = quartz.cmd(&["ls"]).stdout;
    assert!(!stdout.contains("httpbin/redirect"), "{}", stdout);
    Ok(())
}

#[test]
fn rm_multiple() -> TestResult {
    let quartz = Quartz::preset_httpbin()?;
    let output = quartz.cmd(&["rm", "httpbin/get", "httpbin/post", "httpbin/redirect/absolute"]);
    assert!(output.status.success(), "{}", output.stderr);
    let stdout = quartz.cmd(&["ls"]).stdout;
    assert!(!stdout.contains("httpbin/get"), "{}", stdout);
    assert!(!stdout.contains("httpbin/post"), "{}", stdout);
    assert!(!stdout.contains("httpbin/redirect/absolute"), "{}", stdout);
    Ok(())
}

#[test]
fn rm_multiple_continues_on_err() -> TestResult {
    let quartz = Quartz::preset_httpbin()?;
    let output =
        quartz.cmd(&["rm", "httpbin/get", "idontexist", "httpbin/post", "httpbin/redirect/absolute"]);
    assert!(!output.status.success(), "{}", output.stdout);
    let output = quartz.cmd(&["ls"]);
    assert!(!output.stdout.contains("httpbin/get"), "{}", output.stdout);
    assert!(!output.stdout.contains("httpbin/post"), "{}", output.stdout);
    assert!(!output.stdout.contains("httpbin/redirect/absolute"), "{}", output.stdout);
    Ok(())
}

#[test]
fn mv() -> TestResult {
    let quartz = Quartz::preset_httpbin()?;
    let output = quartz.cmd(&["mv", "httpbin/get", "httpbin/getter"]);
    assert!(output.status.success(), "{}", output.stderr);
    let output = quartz.cmd(&["use", "httpbin/get"]);
    assert!(!output.status.success(), "httpbin/get should not exist");
    let output = quartz.cmd(&["-x", "httpbin/getter", "show", "url"]);
    assert_eq!(output.stdout.trim(), "{{BASE_URL}}/get");
    Ok(())
}

#[test]
fn mv_overwrite_empty() -> TestResult {
    let quartz = Quartz::preset_httpbin()?;
    let output = quartz.cmd(&["mv", "httpbin/get", "httpbin"]);
    assert!(output.status.success(), "{}", output.stderr);
    let output = quartz.cmd(&["use", "httpbin/get"]);
    assert!(!output.status.success(), "httpbin/get should not exist");
    let output = quartz.cmd(&["-x", "httpbin", "show", "url"]);
    assert_eq!(output.stdout.trim(), "{{BASE_URL}}/get");
    Ok(())
}

#[test]
fn mv_overwrite() -> TestResult {
    let quartz = Quartz::preset_httpbin()?;
    let output = quartz.cmd(&["mv", "httpbin/get", "httpbin"]);
    assert!(output.status.success(), "{}", output.stderr);
    let output = quartz.cmd(&["use", "httpbin/get"]);
    assert!(!output.status.success(), "httpbin/get should not exist");
    let output = quartz.cmd(&["-x", "httpbin", "show", "url"]);
    assert_eq!(output.stdout.trim(), "{{BASE_URL}}/get");
    Ok(())
}

#[test]
fn mv_multiple() -> TestResult {
    let quartz = Quartz::preset_httpbin()?;
    let output =
        quartz.cmd(&["mv", "httpbin/redirect/absolute", "httpbin/redirect/relative", "httpbin"]);
    assert!(output.status.success(), "{}", output.stderr);
    let stdout = quartz.cmd(&["ls"]).stdout;
    assert!(stdout.contains("httpbin/absolute"), "{}", stdout);
    assert!(stdout.contains("httpbin/relative"), "{}", stdout);
    Ok(())
}

#[test]
fn refused_command_changes_nothing() -> TestResult {
    let quartz = Quartz::preset_using_sample_endpoint()?;
    let before_ls = quartz.cmd(&["ls"]).stdout;
    let before_url = quartz.cmd(&["show", "url"]).stdout;

    let refused = quartz.cmd(&["query", "get", "missing"]);
    assert!(!refused.status.success(), "missing query param was found");
    assert_eq!(refused.stdout, "");

    let refused = quartz.cmd(&["create", "sample"]);
    assert!(!refused.status.success(), "duplicate handle was created");

    assert_eq!(quartz.cmd(&["ls"]).stdout, before_ls);
    assert_eq!(quartz.cmd(&["show", "url"]).stdout, before_url);
    Ok(())
}

#[test]
fn created_env_can_be_used() -> TestResult {
    let quartz = Quartz::preset_empty_project()?;
    assert!(quartz.cmd(&["env", "create", "staging"]).status.success());
    let switched = quartz.cmd(&["env", "use", "staging"]);
    assert!(switched.status.success(), "{}", switched.stderr);
    assert_eq!(quartz.cmd(&["show", "env"]).stdout.trim(), "staging");
    Ok(())
}

#[test]
fn snippet_of_a_handle_with_variables() -> TestResult {
    let quartz = Quartz::preset_empty_project()?;
    assert!(quartz.cmd(&["create", "users/find", "--url", "https://api.example.com/users/{{id}}"]).status.success());
    assert!(quartz.cmd(&["use", "users/find"]).status.success());
    let output = quartz.cmd(&["show", "snippet", "--var", "id=123", "curl"]);
    assert!(output.status.success(), "{}", output.stderr);
    assert_eq!(output.stdout, "curl -L 'https://api.example.com/users/123' -X GET");

    let listing = quartz.cmd(&["ls"]).stdout;
    assert_eq!(
        listing,
        "  \u{1b}[1;37m---\u{1b}[0m users\n* \u{1b}[1;34mGET\u{1b}[0m \u{1b}[32musers/find\u{1b}[0m\n"
    );
    Ok(())
}

#[test]
fn listing_pads_methods_to_the_longest() -> TestResult {
    let quartz = Quartz::preset_empty_project()?;
    quartz.cmd(&["create", "users/find", "--url", "https://api.example.com/users/{{id}}"]);
    quartz.cmd(&["create", "users/update", "-X", "PATCH", "--url", "https://api.example.com/users/{{id}}"]);
    quartz.cmd(&["create", "users/create", "-X", "POST", "--url", "https://api.example.com/users"]);
    let listing = quartz.cmd(&["ls"]).stdout;
    assert_eq!(
        listing,
        "  \u{1b}[1;37m---  \u{1b}[0m users\n  \u{1b}[1;32mPOST \u{1b}[0m users/create\n  \u{1b}[1;34mGET  \u{1b}[0m users/find\n  \u{1b}[1;33mPATCH\u{1b}[0m users/update\n"
    );
    assert!(quartz.cmd(&["config", "set", "ui.colors", "false"]).status.success());
    let listing = quartz.cmd(&["ls"]).stdout;
    assert_eq!(
        listing,
        "  ---   users\n  POST  users/create\n  GET   users/find\n  PATCH users/update\n"
    );
    assert_eq!(quartz.cmd(&["ls", "--depth", "1"]).stdout, "  --- users\n");
    Ok(())
}

#[test]
fn http_snippet_of_a_handle() -> TestResult {
    let quartz = Quartz::preset_empty_project()?;
    quartz.cmd(&["create", "users/find", "--url", "https://api.example.com/users/1?full=true", "--use"]);
    let output = quartz.cmd(&["show", "snippet", "http"]);
    assert!(output.status.success(), "{}", output.stderr);
    assert_eq!(output.stdout, "GET /users/1?full=true HTTP/1.1\nHost: api.example.com\n");
    Ok(())
}

#[test]
fn curl_snippet_shows_the_url_as_parsed() -> TestResult {
    let quartz = Quartz::preset_empty_project()?;
    quartz.cmd(&["create", "root", "--url", "HTTPS://api.example.com", "--use"]);
    let output = quartz.cmd(&["show", "snippet", "curl"]);
    assert!(output.status.success(), "{}", output.stderr);
    assert_eq!(output.stdout, "curl -L 'https://api.example.com/' -X GET");
    Ok(())
}

#[test]
fn copy_keeps_names_below_the_source() -> TestResult {
    let quartz = Quartz::preset_empty_project()?;
    quartz.cmd(&["create", "a/ab", "--url", "https://example.com/ab"]);
    let output = quartz.cmd(&["cp", "-r", "a", "b"]);
    assert!(output.status.success(), "{}", output.stderr);
    let listing = quartz.cmd(&["ls"]).stdout;
    assert!(listing.contains("b/ab"), "{}", listing);
    assert!(!listing.contains("b/bb"), "{}", listing);
    quartz.cmd(&["use", "b/ab"]);
    assert_eq!(quartz.cmd(&["show", "url"]).stdout.trim(), "https://example.com/ab");
    Ok(())
}

#[test]
fn recursive_rm_fails_without_reporting_children() -> TestResult {
    let quartz = Quartz::preset_httpbin()?;
    let output = quartz.cmd(&["rm", "-r", "httpbin/redirect"]);
    assert!(!output.status.success());
    assert_eq!(output.stderr, "");
    assert_eq!(output.stdout, "Deleted endpoint httpbin/redirect\n");
    Ok(())
}

#[test]
fn messages_colour_the_name_in_use() -> TestResult {
    let quartz = Quartz::preset_empty_project()?;
    quartz.cmd(&["create", "users/find", "--url", "https://api.example.com/users"]);
    let output = quartz.cmd(&["use", "users/find"]);
    assert!(output.status.success(), "{}", output.stderr);
    assert_eq!(output.stdout, "Switched to \u{1b}[32musers/find\u{1b}[0m endpoint\n");

    quartz.cmd(&["env", "create", "example"]);
    let output = quartz.cmd(&["env", "use", "example"]);
    assert!(output.status.success(), "{}", output.stderr);
    assert_eq!(output.stdout, "Switched to \u{1b}[32mexample\u{1b}[0m environment\n");
    let listing = quartz.cmd(&["env", "ls"]).stdout;
    assert!(listing.contains("* \u{1b}[32mexample\u{1b}[0m\n"), "{}", listing);
    assert!(listing.contains("  default\n"), "{}", listing);

    assert!(quartz.cmd(&["config", "set", "ui.colors", "false"]).status.success());
    let output = quartz.cmd(&["use", "users/find"]);
    assert_eq!(output.stdout, "Switched to users/find endpoint\n");
    Ok(())
}

#[test]
fn listing_keeps_each_handle_with_those_under_it() -> TestResult {
    let quartz = Quartz::preset_empty_project()?;
    quartz.cmd(&["create", "a", "--url", "https://example.com/a"]);
    quartz.cmd(&["create", "a-b", "--url", "https://example.com/a-b"]);
    quartz.cmd(&["create", "a/c", "--url", "https://example.com/a/c"]);
    assert!(quartz.cmd(&["config", "set", "ui.colors", "false"]).status.success());
    let listing = quartz.cmd(&["ls"]).stdout;
    assert_eq!(listing, "  GET a\n  GET a/c\n  GET a-b\n");
    Ok(())
}
