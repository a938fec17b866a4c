//! The command profile: how the target is run, fixed at start-up and
//! specialised once for each worker.

use crate::text::absolute;
use crate::text::concat;
use crate::text::decimal;
use crate::text::decimal_string;
use crate::text::join_path;
use crate::text::joined;
use crate::text::str_eq;
use crate::text::suffixed;
use crate::text::trim;
use crate::text::trimmed;
use crate::text::with_suffix;
use vstd::prelude::*;
use vstd::string::*;

verus! {

/// The absolute form of `path_str` seen from the directory `cwd`.
pub fn make_absolute_str(path_str: &str, cwd: &str) -> (r: String)
    ensures
        r@ == absolute(path_str@, cwd@),
{
    join_path(cwd, path_str)
}

/// How the tracking binary is instrumented.
#[derive(Debug, Clone, Copy, PartialEq, Eq, Structural)]
pub enum InstrumentationMode {
    LLVM,
    Pin,
}

impl InstrumentationMode {
    /// The mode a name stands for, if it names one.
    pub open spec fn named(mode: Seq<char>) -> Option<InstrumentationMode> {
        if mode == "llvm"@ {
            Some(InstrumentationMode::LLVM)
        } else if mode == "pin"@ {
            Some(InstrumentationMode::Pin)
        } else {
            None
        }
    }

    /// The mode a name stands for: `llvm` or `pin`.
    pub fn parse(mode: &str) -> (r: Option<Self>)
        ensures
            r == Self::named(mode@),
    {
        if str_eq(mode, "llvm") {
            Some(InstrumentationMode::LLVM)
        } else if str_eq(mode, "pin") {
            Some(InstrumentationMode::Pin)
        } else {
            None
        }
    }

    /// The mode named `llvm` or `pin`.
    pub fn from(mode: &str) -> (r: Self)
        requires
            Self::named(mode@).is_some(),
        ensures
            Some(r) == Self::named(mode@),
    {
        match Self::parse(mode) {
            Some(m) => m,
            None => InstrumentationMode::LLVM,
        }
    }

    pub fn is_pin_mode(&self) -> (r: bool)
        ensures
            r == (*self == InstrumentationMode::Pin),
    {
        matches!(self, InstrumentationMode::Pin)
    }
}

/// The strategy by which inputs are searched for.
#[derive(Debug, Clone, Copy, PartialEq, Eq, Structural)]
pub enum SearchMethod {
    Gd,
    Random,
    Mb,
}

impl SearchMethod {
    /// The method a name stands for, if it names one.
    pub open spec fn named(name: Seq<char>) -> Option<SearchMethod> {
        if name == "gd"@ {
            Some(SearchMethod::Gd)
        } else if name == "random"@ {
            Some(SearchMethod::Random)
        } else if name == "mb"@ {
            Some(SearchMethod::Mb)
        } else {
            None
        }
    }

    /// The method a name stands for: `gd`, `random` or `mb`.
    pub fn parse(name: &str) -> (r: Option<Self>)
        ensures
            r == Self::named(name@),
    {
        if str_eq(name, "gd") {
            Some(SearchMethod::Gd)
        } else if str_eq(name, "random") {
            Some(SearchMethod::Random)
        } else if str_eq(name, "mb") {
            Some(SearchMethod::Mb)
        } else {
            None
        }
    }
}

/// What start-up found out about the machine the fuzzer runs on.
pub struct Probe {
    /// The working directory.
    pub cwd: String,
    /// The directory of the compiler's libraries, as `llvm-config --libdir` prints it.
    pub llvm_libdir: String,
    /// Whether the main binary was built with the address sanitiser.
    pub uses_asan: bool,
    /// The value of `PIN_ROOT`, if set.
    pub pin_root: Option<String>,
    /// The value of `ANGORA_BIN_DIR`, if set.
    pub bin_dir: Option<String>,
}

/// What start-up found out, as a mathematical value.
pub struct ProbeView {
    pub cwd: Seq<char>,
    pub llvm_libdir: Seq<char>,
    pub uses_asan: bool,
    pub pin_root: Option<Seq<char>>,
    pub bin_dir: Option<Seq<char>>,
}

impl View for Probe {
    type V = ProbeView;

    open spec fn view(&self) -> ProbeView {
        ProbeView {
            cwd: self.cwd@,
            llvm_libdir: self.llvm_libdir@,
            uses_asan: self.uses_asan,
            pin_root: match self.pin_root {
                Some(s) => Some(s@),
                None => None,
            },
            bin_dir: match self.bin_dir {
                Some(s) => Some(s@),
                None => None,
            },
        }
    }
}

/// What the user asked for on the command line.
pub struct Request {
    /// Instrumentation mode: `llvm` or `pin`.
    pub mode: String,
    /// The tracking binary.
    pub track_target: String,
    /// The fast binary followed by its arguments.
    pub pargs: Vec<String>,
    /// The output directory.
    pub out_dir: String,
    /// Search method: `gd`, `random` or `mb`.
    pub search_method: String,
    /// Memory limit in megabytes; 0 for none.
    pub mem_limit: u64,
    /// Time limit in seconds.
    pub time_limit: u64,
    pub enable_afl: bool,
    pub enable_exploitation: bool,
    pub directed_targets_file: String,
    pub sanopt_target: Option<String>,
    pub directed_only: bool,
}

/// Bytes in a megabyte.
pub const MEGABYTE: u64 = 0x10_0000;

/// The number of bytes in `mb` megabytes, no more than fits.
pub open spec fn megabytes(mb: u64) -> u64 {
    if mb * MEGABYTE > u64::MAX {
        u64::MAX
    } else {
        (mb * MEGABYTE) as u64
    }
}

/// Executable form of [`megabytes`].
pub fn megabytes_to_bytes(mb: u64) -> (r: u64)
    ensures
        r == megabytes(mb),
{
    if mb > u64::MAX / MEGABYTE {
        u64::MAX
    } else {
        mb * MEGABYTE
    }
}

/// What the user asked for, as a mathematical value.
pub struct RequestView {
    pub mode: Seq<char>,
    pub track_target: Seq<char>,
    pub pargs: Seq<Seq<char>>,
    pub out_dir: Seq<char>,
    pub search_method: Seq<char>,
    pub mem_limit: u64,
    pub time_limit: u64,
    pub enable_afl: bool,
    pub enable_exploitation: bool,
    pub directed_targets_file: Seq<char>,
    pub sanopt_target: Option<Seq<char>>,
    pub directed_only: bool,
}

impl View for Request {
    type V = RequestView;

    open spec fn view(&self) -> RequestView {
        RequestView {
            mode: self.mode@,
            track_target: self.track_target@,
            pargs: texts(self.pargs@),
            out_dir: self.out_dir@,
            search_method: self.search_method@,
            mem_limit: self.mem_limit,
            time_limit: self.time_limit,
            enable_afl: self.enable_afl,
            enable_exploitation: self.enable_exploitation,
            directed_targets_file: self.directed_targets_file@,
            sanopt_target: match self.sanopt_target {
                Some(s) => Some(s@),
                None => None,
            },
            directed_only: self.directed_only,
        }
    }
}

impl RequestView {
    /// Whether a profile can be made of the request on this machine: the
    /// mode and the search method are known, a tracking binary is named,
    /// there is a binary to run, and in Pin mode the two directories Pin
    /// needs are known.
    pub open spec fn feasible(self, probe: ProbeView) -> bool {
        &&& InstrumentationMode::named(self.mode).is_some()
        &&& SearchMethod::named(self.search_method).is_some()
        &&& self.track_target != "-"@
        &&& self.pargs.len() > 0
        &&& InstrumentationMode::named(self.mode) == Some(InstrumentationMode::Pin)
            ==> probe.pin_root.is_some() && probe.bin_dir.is_some()
    }

    /// The tracking binary and its arguments: in Pin mode, Pin itself,
    /// told to load the tracking tool and to run the tracking target with
    /// the main arguments; otherwise the tracking target with the main arguments.
    pub open spec fn track_command(self, probe: ProbeView) -> (Seq<char>, Seq<Seq<char>>) {
        let main_args = self.pargs.skip(1);
        if InstrumentationMode::named(self.mode) == Some(InstrumentationMode::Pin) {
            (
                probe.pin_root.unwrap() + "/pin"@,
                seq![
                    "-t"@,
                    joined(joined(probe.bin_dir.unwrap(), "lib"@), "pin_track.so"@),
                    "--"@,
                    self.track_target,
                ] + main_args,
            )
        } else {
            (absolute(self.track_target, probe.cwd), main_args)
        }
    }

    /// The root profile of the request.
    ///
    /// The scratch files lie in `tmp` under the output directory. The
    /// target reads standard input unless one of its arguments is `@@`. The
    /// memory limit is turned into bytes; with the address sanitiser in the
    /// main binary there is none.
    pub open spec fn profile(self, probe: ProbeView) -> CommandOptView {
        let tmp_dir = joined(self.out_dir, "tmp"@);
        CommandOptView {
            mode: InstrumentationMode::named(self.mode).unwrap(),
            id: 0,
            main: (absolute(self.pargs[0], probe.cwd), self.pargs.skip(1)),
            track: self.track_command(probe),
            tmp_dir,
            out_file: joined(tmp_dir, "cur_input"@),
            forksrv_socket_path: joined(tmp_dir, "forksrv_socket"@),
            track_path: joined(tmp_dir, "track"@),
            is_stdin: !self.pargs.contains("@@"@),
            search_method: SearchMethod::named(self.search_method).unwrap(),
            mem_limit: if probe.uses_asan {
                0
            } else {
                megabytes(self.mem_limit)
            },
            time_limit: self.time_limit,
            is_raw: true,
            uses_asan: probe.uses_asan,
            ld_library: "$LD_LIBRARY_PATH:"@ + trimmed(probe.llvm_libdir),
            enable_afl: self.enable_afl,
            enable_exploitation: self.enable_exploitation,
            directed_targets_file: self.directed_targets_file,
            sanopt_bin: self.sanopt_target,
            directed_only: self.directed_only,
        }
    }
}

/// The command profile.
#[derive(Debug)]
pub struct CommandOpt {
    pub mode: InstrumentationMode,
    /// The worker this profile is specialised for; 0 for the root profile.
    pub id: usize,
    /// The fast binary and its arguments.
    pub main: (String, Vec<String>),
    /// The tracking binary and its arguments.
    pub track: (String, Vec<String>),
    /// The scratch directory.
    pub tmp_dir: String,
    /// The file the current input is written to.
    pub out_file: String,
    pub forksrv_socket_path: String,
    /// The file a tracking run writes to.
    pub track_path: String,
    /// Whether the target reads its input from standard input.
    pub is_stdin: bool,
    pub search_method: SearchMethod,
    /// Memory limit in bytes; 0 for none.
    pub mem_limit: u64,
    /// Time limit in seconds.
    pub time_limit: u64,
    /// Whether this is the root profile, which owns the scratch directory.
    pub is_raw: bool,
    pub uses_asan: bool,
    pub ld_library: String,
    pub enable_afl: bool,
    pub enable_exploitation: bool,
    pub directed_targets_file: String,
    pub sanopt_bin: Option<String>,
    pub directed_only: bool,
}

/// The command profile as a mathematical value.
pub struct CommandOptView {
    pub mode: InstrumentationMode,
    pub id: usize,
    pub main: (Seq<char>, Seq<Seq<char>>),
    pub track: (Seq<char>, Seq<Seq<char>>),
    pub tmp_dir: Seq<char>,
    pub out_file: Seq<char>,
    pub forksrv_socket_path: Seq<char>,
    pub track_path: Seq<char>,
    pub is_stdin: bool,
    pub search_method: SearchMethod,
    pub mem_limit: u64,
    pub time_limit: u64,
    pub is_raw: bool,
    pub uses_asan: bool,
    pub ld_library: Seq<char>,
    pub enable_afl: bool,
    pub enable_exploitation: bool,
    pub directed_targets_file: Seq<char>,
    pub sanopt_bin: Option<Seq<char>>,
    pub directed_only: bool,
}

/// A list of strings as a sequence of character sequences.
pub open spec fn texts(v: Seq<String>) -> Seq<Seq<char>> {
    v.map_values(|s: String| s@)
}

/// The arguments with every `@@` replaced by `file`.
pub open spec fn substituted(args: Seq<Seq<char>>, file: Seq<char>) -> Seq<Seq<char>> {
    args.map_values(
        |a: Seq<char>|
            if a == "@@"@ {
                file
            } else {
                a
            },
    )
}

impl View for CommandOpt {
    type V = CommandOptView;

    open spec fn view(&self) -> CommandOptView {
        CommandOptView {
            mode: self.mode,
            id: self.id,
            main: (self.main.0@, texts(self.main.1@)),
            track: (self.track.0@, texts(self.track.1@)),
            tmp_dir: self.tmp_dir@,
            out_file: self.out_file@,
            forksrv_socket_path: self.forksrv_socket_path@,
            track_path: self.track_path@,
            is_stdin: self.is_stdin,
            search_method: self.search_method,
            mem_limit: self.mem_limit,
            time_limit: self.time_limit,
            is_raw: self.is_raw,
            uses_asan: self.uses_asan,
            ld_library: self.ld_library@,
            enable_afl: self.enable_afl,
            enable_exploitation: self.enable_exploitation,
            directed_targets_file: self.directed_targets_file@,
            sanopt_bin: match self.sanopt_bin {
                Some(s) => Some(s@),
                None => None,
            },
            directed_only: self.directed_only,
        }
    }
}

impl CommandOptView {
    /// The profile specialised for worker `id`: the three scratch paths get
    /// the suffix `_id`, every `@@` among the arguments of both binaries
    /// becomes the new input file unless the target reads standard input,
    /// and the profile no longer owns the scratch directory.
    pub open spec fn specified(self, id: usize) -> CommandOptView {
        let tail = decimal(id as nat);
        let new_file = with_suffix(self.out_file, tail);
        CommandOptView {
            id,
            out_file: new_file,
            forksrv_socket_path: with_suffix(self.forksrv_socket_path, tail),
            track_path: with_suffix(self.track_path, tail),
            main: if self.is_stdin {
                self.main
            } else {
                (self.main.0, substituted(self.main.1, new_file))
            },
            track: if self.is_stdin {
                self.track
            } else {
                (self.track.0, substituted(self.track.1, new_file))
            },
            is_raw: false,
            ..self
        }
    }

    /// The profile for the sanitiser-optimised binary: that binary, if one
    /// is set, in place of the main one; no memory limit; the address
    /// sanitiser taken as present; the three scratch paths with the suffix
    /// `_sanopt`. Like every profile made of another, it does not own the
    /// scratch directory.
    pub open spec fn sanopted(self) -> CommandOptView {
        let tail = "sanopt"@;
        CommandOptView {
            main: (
                match self.sanopt_bin {
                    Some(bin) => bin,
                    None => self.main.0,
                },
                self.main.1,
            ),
            out_file: with_suffix(self.out_file, tail),
            forksrv_socket_path: with_suffix(self.forksrv_socket_path, tail),
            track_path: with_suffix(self.track_path, tail),
            uses_asan: true,
            mem_limit: 0,
            is_raw: false,
            ..self
        }
    }
}

/// The texts of a list with one more string are the texts of the list with
/// one more text.
proof fn lemma_texts_push(v: Seq<String>, s: String)
    ensures
        texts(v.push(s)) == texts(v).push(s@),
{
    assert(texts(v.push(s)) =~= texts(v).push(s@));
}

/// Exactly one profile owns the scratch directory: whatever is made of a
/// profile by specialising it or by turning it to the sanitiser-optimised
/// binary does not own it.
pub proof fn lemma_derived_profiles_own_nothing(profile: CommandOptView, id: usize)
    ensures
        !profile.specified(id).is_raw,
        !profile.sanopted().is_raw,
{
}

/// A copy of the strings.
fn copy_strings(v: &Vec<String>) -> (r: Vec<String>)
    ensures
        texts(r@) == texts(v@),
{
    let mut out: Vec<String> = Vec::new();
    let mut i: usize = 0;
    while i < v.len()
        invariant
            i <= v.len(),
            texts(out@) == texts(v@).take(i as int),
        decreases v.len() - i,
    {
        proof {
            lemma_texts_push(out@, v@[i as int]);
        }
        out.push(v[i].clone());
        assert(texts(out@) =~= texts(v@).take(i + 1));
        i += 1;
    }
    assert(texts(v@).take(i as int) =~= texts(v@));
    out
}

/// A copy of the strings from index `from` on.
fn copy_tail(v: &Vec<String>, from: usize) -> (r: Vec<String>)
    requires
        from <= v.len(),
    ensures
        texts(r@) == texts(v@).skip(from as int),
{
    let mut out: Vec<String> = Vec::new();
    let mut i: usize = from;
    while i < v.len()
        invariant
            from <= i <= v.len(),
            texts(out@) == texts(v@).subrange(from as int, i as int),
        decreases v.len() - i,
    {
        proof {
            lemma_texts_push(out@, v@[i as int]);
        }
        out.push(v[i].clone());
        assert(texts(out@) =~= texts(v@).subrange(from as int, i + 1));
        i += 1;
    }
    assert(texts(v@).subrange(from as int, i as int) =~= texts(v@).skip(from as int));
    out
}

/// The arguments with every `@@` replaced by `file`.
fn substitute(args: &Vec<String>, file: &String) -> (r: Vec<String>)
    ensures
        texts(r@) == substituted(texts(args@), file@),
{
    let mut out: Vec<String> = Vec::new();
    let mut i: usize = 0;
    while i < args.len()
        invariant
            i <= args.len(),
            texts(out@) == substituted(texts(args@), file@).take(i as int),
        decreases args.len() - i,
    {
        proof {
            lemma_texts_push(out@, *file);
            lemma_texts_push(out@, args@[i as int]);
        }
        if str_eq(args[i].as_str(), "@@") {
            out.push(file.clone());
        } else {
            out.push(args[i].clone());
        }
        assert(texts(out@) =~= substituted(texts(args@), file@).take(i + 1));
        i += 1;
    }
    assert(substituted(texts(args@), file@).take(i as int) =~= substituted(texts(args@), file@));
    out
}

/// Whether one of the arguments is `@@`.
fn has_placeholder(args: &Vec<String>) -> (r: bool)
    ensures
        r == texts(args@).contains("@@"@),
{
    let mut i: usize = 0;
    while i < args.len()
        invariant
            i <= args.len(),
            forall|j: int| 0 <= j < i ==> texts(args@)[j] != "@@"@,
        decreases args.len() - i,
    {
        if str_eq(args[i].as_str(), "@@") {
            assert(texts(args@)[i as int] == "@@"@);
            return true;
        }
        i += 1;
    }
    false
}

impl Clone for CommandOpt {
    fn clone(&self) -> (r: Self)
        ensures
            r@ == self@,
    {
        CommandOpt {
            mode: self.mode,
            id: self.id,
            main: (self.main.0.clone(), copy_strings(&self.main.1)),
            track: (self.track.0.clone(), copy_strings(&self.track.1)),
            tmp_dir: self.tmp_dir.clone(),
            out_file: self.out_file.clone(),
            forksrv_socket_path: self.forksrv_socket_path.clone(),
            track_path: self.track_path.clone(),
            is_stdin: self.is_stdin,
            search_method: self.search_method,
            mem_limit: self.mem_limit,
            time_limit: self.time_limit,
            is_raw: self.is_raw,
            uses_asan: self.uses_asan,
            ld_library: self.ld_library.clone(),
            enable_afl: self.enable_afl,
            enable_exploitation: self.enable_exploitation,
            directed_targets_file: self.directed_targets_file.clone(),
            sanopt_bin: match &self.sanopt_bin {
                Some(s) => Some(s.clone()),
                None => None,
            },
            directed_only: self.directed_only,
        }
    }
}

impl CommandOpt {
    /// The root profile of a request, if one can be made of it on this
    /// machine; see [`RequestView::feasible`] and [`RequestView::profile`].
    pub fn try_new(request: &Request, probe: &Probe) -> (r: Option<Self>)
        ensures
            r.is_some() <==> request@.feasible(probe@),
            r matches Some(opt) ==> opt@ == request@.profile(probe@),
    {
        let mode = match InstrumentationMode::parse(request.mode.as_str()) {
            Some(m) => m,
            None => { return None; },
        };
        let search_method = match SearchMethod::parse(request.search_method.as_str()) {
            Some(m) => m,
            None => { return None; },
        };
        if str_eq(request.track_target.as_str(), "-") || request.pargs.len() == 0 {
            return None;
        }
        let main_args = copy_tail(&request.pargs, 1);
        let track = if mode.is_pin_mode() {
            match (&probe.pin_root, &probe.bin_dir) {
                (Some(pin_root), Some(bin_dir)) => {
                    let lib = join_path(bin_dir.as_str(), "lib");
                    let mut args: Vec<String> = Vec::new();
                    args.push(String::from_str("-t"));
                    args.push(join_path(lib.as_str(), "pin_track.so"));
                    args.push(String::from_str("--"));
                    args.push(request.track_target.clone());
                    let ghost head = args@;
                    let mut i: usize = 0;
                    while i < main_args.len()
                        invariant
                            i <= main_args.len(),
                            texts(args@) == texts(head) + texts(main_args@).take(i as int),
                        decreases main_args.len() - i,
                    {
                        proof {
                            lemma_texts_push(args@, main_args@[i as int]);
                        }
                        args.push(main_args[i].clone());
                        assert(texts(args@) =~= texts(head) + texts(main_args@).take(i + 1));
                        i += 1;
                    }
                    proof {
                        assert(texts(main_args@).take(i as int) =~= texts(main_args@));
                        assert(texts(head) =~= seq![
                            "-t"@,
                            joined(joined(bin_dir@, "lib"@), "pin_track.so"@),
                            "--"@,
                            request.track_target@,
                        ]);
                    }
                    (concat(pin_root.as_str(), "/pin"), args)
                },
                _ => { return None; },
            }
        } else {
            (
                make_absolute_str(request.track_target.as_str(), probe.cwd.as_str()),
                copy_strings(&main_args),
            )
        };
        let tmp_dir = join_path(request.out_dir.as_str(), "tmp");
        let libdir = trim(probe.llvm_libdir.as_str());
        let opt = CommandOpt {
            mode,
            id: 0,
            main: (make_absolute_str(request.pargs[0].as_str(), probe.cwd.as_str()), main_args),
            track,
            out_file: join_path(tmp_dir.as_str(), "cur_input"),
            forksrv_socket_path: join_path(tmp_dir.as_str(), "forksrv_socket"),
            track_path: join_path(tmp_dir.as_str(), "track"),
            tmp_dir,
            is_stdin: !has_placeholder(&request.pargs),
            search_method,
            mem_limit: if probe.uses_asan {
                0
            } else {
                megabytes_to_bytes(request.mem_limit)
            },
            time_limit: request.time_limit,
            is_raw: true,
            uses_asan: probe.uses_asan,
            ld_library: concat("$LD_LIBRARY_PATH:", libdir.as_str()),
            enable_afl: request.enable_afl,
            enable_exploitation: request.enable_exploitation,
            directed_targets_file: request.directed_targets_file.clone(),
            sanopt_bin: match &request.sanopt_target {
                Some(s) => Some(s.clone()),
                None => None,
            },
            directed_only: request.directed_only,
        };
        proof {
            assert(texts(request.pargs@)[0] == request.pargs@[0]@);
        }
        Some(opt)
    }

    /// The root profile of a request that is feasible; see [`RequestView::profile`].
    pub fn new(request: &Request, probe: &Probe) -> (r: Self)
        requires
            request@.feasible(probe@),
        ensures
            r@ == request@.profile(probe@),
    {
        Self::try_new(request, probe).unwrap()
    }

    /// The profile specialised for worker `id`; see [`CommandOptView::specified`].
    pub fn specify(&self, id: usize) -> (r: Self)
        ensures
            r@ == self@.specified(id),
    {
        let mut opt = self.clone();
        let tail = decimal_string(id);
        let new_file = suffixed(self.out_file.as_str(), tail.as_str());
        let new_forksrv_socket_path = suffixed(self.forksrv_socket_path.as_str(), tail.as_str());
        let new_track_path = suffixed(self.track_path.as_str(), tail.as_str());
        if !self.is_stdin {
            opt.main.1 = substitute(&self.main.1, &new_file);
            opt.track.1 = substitute(&self.track.1, &new_file);
        }
        opt.id = id;
        opt.out_file = new_file;
        opt.forksrv_socket_path = new_forksrv_socket_path;
        opt.track_path = new_track_path;
        opt.is_raw = false;
        opt
    }

    /// The profile for the sanitiser-optimised binary; see [`CommandOptView::sanopted`].
    pub fn sanopt(&self) -> (r: Self)
        ensures
            r@ == self@.sanopted(),
    {
        let mut opt = self.clone();
        let bin = match &self.sanopt_bin {
            Some(optbin) => optbin.clone(),
            None => self.main.0.clone(),
        };
        opt.main.0 = bin;
        opt.out_file = suffixed(self.out_file.as_str(), "sanopt");
        opt.forksrv_socket_path = suffixed(self.forksrv_socket_path.as_str(), "sanopt");
        opt.track_path = suffixed(self.track_path.as_str(), "sanopt");
        opt.uses_asan = true;
        opt.mem_limit = 0;
        opt.is_raw = false;
        opt
    }

    /// Whether the scratch directory is to be cleared when this profile is
    /// dropped: only the root profile owns it.
    pub fn owns_scratch(&self) -> (r: bool)
        ensures
            r == self@.is_raw,
    {
        self.is_raw
    }
}

} // verus!
