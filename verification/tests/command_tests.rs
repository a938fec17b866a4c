use angora::command::make_absolute_str;
use angora::command::megabytes_to_bytes;
use angora::command::CommandOpt;
use angora::command::InstrumentationMode;
use angora::command::Probe;
use angora::command::Request;
use angora::command::SearchMethod;
use angora::text::decimal_string;
use angora::text::join_path;
use angora::text::suffixed;

fn strings(v: &[&str]) -> Vec<String> {
    v.iter().map(|s| s.to_string()).collect()
}

fn request(pargs: &[&str]) -> Request {
    Request {
        mode: "llvm".to_string(),
        track_target: "./target.taint".to_string(),
        pargs: strings(pargs),
        out_dir: "/work/out".to_string(),
        search_method: "gd".to_string(),
        mem_limit: 200,
        time_limit: 1,
        enable_afl: true,
        enable_exploitation: false,
        directed_targets_file: "targets.json".to_string(),
        sanopt_target: None,
        directed_only: false,
    }
}

fn probe() -> Probe {
    Probe {
        cwd: "/work".to_string(),
        llvm_libdir: "/usr/lib/llvm/lib\n".to_string(),
        uses_asan: false,
        pin_root: None,
        bin_dir: None,
    }
}

#[test]
fn mode_names() {
    assert_eq!(InstrumentationMode::from("llvm"), InstrumentationMode::LLVM);
    assert_eq!(InstrumentationMode::from("pin"), InstrumentationMode::Pin);
    assert!(InstrumentationMode::from("pin").is_pin_mode());
    assert!(!InstrumentationMode::from("llvm").is_pin_mode());
    assert_eq!(InstrumentationMode::parse("qemu"), None);
    assert_eq!(InstrumentationMode::parse("LLVM"), None);
}

#[test]
fn search_method_names() {
    assert_eq!(SearchMethod::parse("gd"), Some(SearchMethod::Gd));
    assert_eq!(SearchMethod::parse("random"), Some(SearchMethod::Random));
    assert_eq!(SearchMethod::parse("mb"), Some(SearchMethod::Mb));
    assert_eq!(SearchMethod::parse("afl"), None);
}

#[test]
fn decimal_numerals() {
    assert_eq!(decimal_string(0), "0");
    assert_eq!(decimal_string(7), "7");
    assert_eq!(decimal_string(10), "10");
    assert_eq!(decimal_string(4096), "4096");
    assert_eq!(decimal_string(1234567890), "1234567890");
}

#[test]
fn suffixes_and_paths() {
    assert_eq!(suffixed("/tmp/cur_input", "3"), "/tmp/cur_input_3");
    assert_eq!(join_path("/work/out", "tmp"), "/work/out/tmp");
    assert_eq!(join_path("/work/out/", "tmp"), "/work/out/tmp");
    assert_eq!(join_path("", "tmp"), "tmp");
    assert_eq!(join_path("/work", "/abs"), "/abs");
    assert_eq!(make_absolute_str("bin/target", "/work"), "/work/bin/target");
    assert_eq!(make_absolute_str("/usr/bin/target", "/work"), "/usr/bin/target");
}

#[test]
fn join_path_agrees_with_std() {
    for (dir, name) in [("/a", "b"), ("/a/", "b"), ("", "b"), ("/a", "/b"), ("a/b", "c/d"), ("/", "x")] {
        let expected = std::path::Path::new(dir).join(name);
        assert_eq!(join_path(dir, name), expected.to_str().unwrap());
    }
}

#[test]
fn root_profile_of_a_file_target() {
    let opt = CommandOpt::new(&request(&["./target.fast", "-x", "@@"]), &probe());
    assert_eq!(opt.mode, InstrumentationMode::LLVM);
    assert_eq!(opt.id, 0);
    assert_eq!(opt.main.0, "/work/./target.fast");
    assert_eq!(opt.main.1, strings(&["-x", "@@"]));
    assert_eq!(opt.track.0, "/work/./target.taint");
    assert_eq!(opt.track.1, strings(&["-x", "@@"]));
    assert_eq!(opt.tmp_dir, "/work/out/tmp");
    assert_eq!(opt.out_file, "/work/out/tmp/cur_input");
    assert_eq!(opt.forksrv_socket_path, "/work/out/tmp/forksrv_socket");
    assert_eq!(opt.track_path, "/work/out/tmp/track");
    assert!(!opt.is_stdin);
    assert_eq!(opt.search_method, SearchMethod::Gd);
    assert_eq!(opt.mem_limit, 200 * 1024 * 1024);
    assert_eq!(opt.time_limit, 1);
    assert!(opt.is_raw);
    assert!(opt.owns_scratch());
    assert!(!opt.uses_asan);
    assert_eq!(opt.ld_library, "$LD_LIBRARY_PATH:/usr/lib/llvm/lib");
    assert!(opt.enable_afl);
    assert_eq!(opt.sanopt_bin, None);
}

#[test]
fn library_directory_is_trimmed() {
    for (raw, trimmed) in [
        ("/lib", "/lib"),
        ("  /lib\t\r\n", "/lib"),
        ("\u{a0}/my lib\u{3000}\u{2028}", "/my lib"),
        ("\u{200b}/lib", "\u{200b}/lib"),
        (" \n ", ""),
        ("", ""),
    ] {
        let mut p = probe();
        p.llvm_libdir = raw.to_string();
        let opt = CommandOpt::new(&request(&["./target.fast"]), &p);
        assert_eq!(opt.ld_library, format!("$LD_LIBRARY_PATH:{}", trimmed));
    }
}

#[test]
fn stdin_target_is_inferred() {
    let opt = CommandOpt::new(&request(&["./target.fast"]), &probe());
    assert!(opt.is_stdin);
    assert!(opt.main.1.is_empty());
}

#[test]
fn memory_limits_are_kept_in_bytes() {
    assert_eq!(megabytes_to_bytes(0), 0);
    assert_eq!(megabytes_to_bytes(1), 1_048_576);
    assert_eq!(megabytes_to_bytes(200), 209_715_200);
    assert_eq!(megabytes_to_bytes((1 << 44) - 1), ((1u64 << 44) - 1) << 20);
    assert_eq!(megabytes_to_bytes(1 << 44), u64::MAX);
    assert_eq!(megabytes_to_bytes(u64::MAX), u64::MAX);
}

#[test]
fn asan_forces_memory_limit_to_zero() {
    let mut p = probe();
    p.uses_asan = true;
    let opt = CommandOpt::new(&request(&["./target.fast", "@@"]), &p);
    assert!(opt.uses_asan);
    assert_eq!(opt.mem_limit, 0);
}

#[test]
fn pin_mode_tracks_through_pin() {
    let mut r = request(&["./target.fast", "@@"]);
    r.mode = "pin".to_string();
    let mut p = probe();
    p.pin_root = Some("/opt/pin".to_string());
    p.bin_dir = Some("/opt/angora/bin".to_string());
    let opt = CommandOpt::new(&r, &p);
    assert_eq!(opt.mode, InstrumentationMode::Pin);
    assert_eq!(opt.track.0, "/opt/pin/pin");
    assert_eq!(
        opt.track.1,
        strings(&["-t", "/opt/angora/bin/lib/pin_track.so", "--", "./target.taint", "@@"])
    );
}

#[test]
fn infeasible_requests_are_refused() {
    let mut r = request(&["./target.fast"]);
    r.mode = "qemu".to_string();
    assert!(CommandOpt::try_new(&r, &probe()).is_none());

    let mut r = request(&["./target.fast"]);
    r.search_method = "magic".to_string();
    assert!(CommandOpt::try_new(&r, &probe()).is_none());

    let mut r = request(&["./target.fast"]);
    r.track_target = "-".to_string();
    assert!(CommandOpt::try_new(&r, &probe()).is_none());

    assert!(CommandOpt::try_new(&request(&[]), &probe()).is_none());

    let mut r = request(&["./target.fast"]);
    r.mode = "pin".to_string();
    assert!(CommandOpt::try_new(&r, &probe()).is_none());

    assert!(CommandOpt::try_new(&request(&["./target.fast"]), &probe()).is_some());
}

#[test]
fn specify_suffixes_every_scratch_path() {
    let raw = CommandOpt::new(&request(&["./target.fast", "-x", "@@", "@@x"]), &probe());
    let w = raw.specify(12);
    assert_eq!(w.id, 12);
    assert_eq!(w.out_file, "/work/out/tmp/cur_input_12");
    assert_eq!(w.forksrv_socket_path, "/work/out/tmp/forksrv_socket_12");
    assert_eq!(w.track_path, "/work/out/tmp/track_12");
    assert_eq!(w.main.1, strings(&["-x", "/work/out/tmp/cur_input_12", "@@x"]));
    assert_eq!(w.track.1, strings(&["-x", "/work/out/tmp/cur_input_12", "@@x"]));
    assert!(!w.is_raw);
    assert!(!w.owns_scratch());
    // nothing else changes
    assert_eq!(w.mode, raw.mode);
    assert_eq!(w.main.0, raw.main.0);
    assert_eq!(w.track.0, raw.track.0);
    assert_eq!(w.tmp_dir, raw.tmp_dir);
    assert_eq!(w.is_stdin, raw.is_stdin);
    assert_eq!(w.search_method, raw.search_method);
    assert_eq!(w.mem_limit, raw.mem_limit);
    assert_eq!(w.time_limit, raw.time_limit);
    assert_eq!(w.uses_asan, raw.uses_asan);
    assert_eq!(w.ld_library, raw.ld_library);
    assert_eq!(w.enable_afl, raw.enable_afl);
    assert_eq!(w.enable_exploitation, raw.enable_exploitation);
    assert_eq!(w.directed_targets_file, raw.directed_targets_file);
    assert_eq!(w.sanopt_bin, raw.sanopt_bin);
    assert_eq!(w.directed_only, raw.directed_only);
    // the root profile is left as it was
    assert_eq!(raw.out_file, "/work/out/tmp/cur_input");
    assert!(raw.is_raw);
}

#[test]
fn specify_of_a_stdin_target_keeps_the_arguments() {
    let raw = CommandOpt::new(&request(&["./target.fast", "-v"]), &probe());
    let w = raw.specify(0);
    assert_eq!(w.out_file, "/work/out/tmp/cur_input_0");
    assert_eq!(w.main.1, strings(&["-v"]));
    assert!(w.is_stdin);
}

#[test]
fn sanopt_substitutes_the_binary() {
    let mut r = request(&["./target.fast", "@@"]);
    r.sanopt_target = Some("/work/target.sanopt".to_string());
    let raw = CommandOpt::new(&r, &probe());
    let s = raw.sanopt();
    assert_eq!(s.main.0, "/work/target.sanopt");
    assert_eq!(s.main.1, strings(&["@@"]));
    assert_eq!(s.out_file, "/work/out/tmp/cur_input_sanopt");
    assert_eq!(s.forksrv_socket_path, "/work/out/tmp/forksrv_socket_sanopt");
    assert_eq!(s.track_path, "/work/out/tmp/track_sanopt");
    assert!(s.uses_asan);
    assert_eq!(s.mem_limit, 0);
    assert_eq!(s.id, raw.id);
    assert!(raw.is_raw);
    assert!(!s.is_raw);
    assert!(!s.owns_scratch());
    assert!(!raw.specify(1).sanopt().owns_scratch());
    assert_eq!(s.track.0, raw.track.0);
}

#[test]
fn sanopt_without_a_binary_keeps_the_main_one() {
    let raw = CommandOpt::new(&request(&["./target.fast", "@@"]), &probe());
    let s = raw.sanopt();
    assert_eq!(s.main.0, raw.main.0);
    assert!(s.uses_asan);
    assert_eq!(s.mem_limit, 0);
}

#[test]
fn clone_keeps_every_field() {
    let raw = CommandOpt::new(&request(&["./target.fast", "@@"]), &probe());
    let c = raw.clone();
    assert_eq!(c.main, raw.main);
    assert_eq!(c.track, raw.track);
    assert_eq!(c.out_file, raw.out_file);
    assert_eq!(c.is_raw, raw.is_raw);
    assert_eq!(c.ld_library, raw.ld_library);
}
