//! Builds the isolation launcher's invocation: an argument vector that
//! drops privileges, hides the host filesystem, restricts namespaces and
//! enforces the resource ceilings, followed by the target command.
//!
//! The builder accumulates arguments in order and is consumed once by
//! [`NsJailBuilder::build`], which appends the `/proc` policy and the
//! end-of-options marker.

use vstd::prelude::*;

use crate::env::RunnerEnv;
use crate::memory::Memory;
use crate::numerals::{decimal_of, format_u64, push_decimal};
use crate::strings::{chars_to_string, push_chars};
use crate::time::MsTime;

verus! {

/// The baseline arguments every invocation starts with: privilege drop,
/// cgroup detection, `/dev/null`, no new namespaces from inside, a coarse
/// address-space backstop, and the read-only toolchain store mounts.
pub open spec fn spec_base_args(env: RunnerEnv) -> Seq<Seq<char>> {
    seq![
        "-Mo"@,
        "--user"@,
        decimal_of(env.permission_id as nat),
        "--group"@,
        decimal_of(env.permission_id as nat),
        "--detect_cgroupv2"@,
        "--bindmount_ro"@,
        "/dev/null"@,
        "--disable_clone_newnet"@,
        "--disable_clone_newuser"@,
        "--disable_clone_newipc"@,
        "--disable_clone_newuts"@,
        "--disable_clone_newcgroup"@,
        "--rlimit_as"@,
        "9192"@,
        "-R"@,
        env.nix_store_path@,
        "-R"@,
        env.nix_bin@,
    ]
}

/// A `key=value` environment argument.
pub open spec fn spec_env_arg(key: Seq<char>, value: Seq<char>) -> Seq<char> {
    key + "="@ + value
}

/// A `src:dest` mount argument.
pub open spec fn spec_mount_arg(src: Seq<char>, dest: Seq<char>) -> Seq<char> {
    src + ":"@ + dest
}

/// A sized tmpfs mount argument.
pub open spec fn spec_tmpfs_arg(dest: Seq<char>, size: Memory) -> Seq<char> {
    "none:"@ + dest + ":tmpfs:size="@ + decimal_of(size.0 as nat)
}

/// Accumulates one isolation-launcher invocation.
///
/// `args` is the argument vector so far, starting with the launcher
/// binary itself (possibly behind a measuring-wrapper prefix);
/// `proc_writable` is the `/proc` policy, hidden unless requested;
/// `current_dir` is the working directory the spawned process starts in.
pub struct NsJailBuilder {
    pub args: Vec<String>,
    pub proc_writable: Option<bool>,
    pub current_dir: Option<String>,
}

impl NsJailBuilder {
    /// A fresh invocation of the launcher alone.
    pub fn new(env: &RunnerEnv) -> (r: Self)
        ensures
            r.args.deep_view() == seq![env.nix_bin@ + "/nsjail"@] + spec_base_args(*env),
            r.proc_writable is None,
            r.current_dir is None,
    {
        let mut args: Vec<String> = Vec::new();
        args.push(env.nsjail_cmd());
        Self::write_args(&mut args, env);
        assert(args.deep_view() =~= seq![env.nix_bin@ + "/nsjail"@] + spec_base_args(*env));
        NsJailBuilder { args, proc_writable: None, current_dir: None }
    }

    /// A fresh invocation behind an already-started command prefix, such
    /// as the measuring wrapper.
    pub fn new_with(prefix: Vec<String>, env: &RunnerEnv) -> (r: Self)
        ensures
            r.args.deep_view() == prefix.deep_view() + seq![env.nix_bin@ + "/nsjail"@]
                + spec_base_args(*env),
            r.proc_writable is None,
            r.current_dir is None,
    {
        let ghost p0 = prefix.deep_view();
        let mut args = prefix;
        args.push(env.nsjail_cmd());
        Self::write_args(&mut args, env);
        assert(args.deep_view() =~= p0 + seq![env.nix_bin@ + "/nsjail"@] + spec_base_args(*env));
        NsJailBuilder { args, proc_writable: None, current_dir: None }
    }

    /// A hard wall-clock ceiling, rounded up to whole seconds so that a
    /// fractional second never truncates to no enforcement at all.
    pub fn time_limit(&mut self, time_limit: MsTime)
        ensures
            final(self).args.deep_view() == old(self).args.deep_view()
                + seq!["--time_limit"@, decimal_of(((time_limit.0 + 999) / 1000) as nat)],
            final(self).proc_writable == old(self).proc_writable,
            final(self).current_dir == old(self).current_dir,
    {
        self.push_str_arg("--time_limit");
        let secs = time_limit.as_seconds_ceil();
        let cs = format_u64(secs);
        self.push_string_arg(chars_to_string(&cs));
        assert(self.args.deep_view() =~= old(self).args.deep_view()
            + seq!["--time_limit"@, decimal_of(((time_limit.0 + 999) / 1000) as nat)]);
    }

    /// The cgroup hard memory ceiling, in bytes.
    pub fn memory_limit(&mut self, memory_limit: Memory)
        ensures
            final(self).args.deep_view() == old(self).args.deep_view()
                + seq!["--cgroup_mem_max"@, decimal_of(memory_limit.0 as nat)],
            final(self).proc_writable == old(self).proc_writable,
            final(self).current_dir == old(self).current_dir,
    {
        self.push_str_arg("--cgroup_mem_max");
        let cs = format_u64(memory_limit.as_bytes());
        self.push_string_arg(chars_to_string(&cs));
        assert(self.args.deep_view() =~= old(self).args.deep_view()
            + seq!["--cgroup_mem_max"@, decimal_of(memory_limit.0 as nat)]);
    }

    /// Injects one environment variable into the sandbox.
    pub fn env(&mut self, key: &str, value: &str)
        ensures
            final(self).args.deep_view() == old(self).args.deep_view()
                + seq!["--env"@, spec_env_arg(key@, value@)],
            final(self).proc_writable == old(self).proc_writable,
            final(self).current_dir == old(self).current_dir,
    {
        self.push_str_arg("--env");
        let mut cs: Vec<char> = Vec::new();
        push_chars(&mut cs, key);
        push_chars(&mut cs, "=");
        push_chars(&mut cs, value);
        assert(cs@ =~= spec_env_arg(key@, value@));
        self.push_string_arg(chars_to_string(&cs));
        assert(self.args.deep_view() =~= old(self).args.deep_view()
            + seq!["--env"@, spec_env_arg(key@, value@)]);
    }

    /// The workspace directory: the filesystem root inside the sandbox
    /// and the working directory of the spawned process.
    pub fn cwd(&mut self, cwd: &str)
        ensures
            final(self).args.deep_view() == old(self).args.deep_view()
                + seq!["--chroot"@, cwd@],
            final(self).proc_writable == old(self).proc_writable,
            final(self).current_dir matches Some(d) && d@ == cwd@,
    {
        self.push_str_arg("--chroot");
        self.push_str_arg(cwd);
        self.current_dir = Some(cwd.to_owned());
        assert(self.args.deep_view() =~= old(self).args.deep_view() + seq!["--chroot"@, cwd@]);
    }

    /// A sized temporary filesystem at `tmpfsmount`, with `TMPDIR`
    /// pointing at it.
    pub fn tmpfsmount(&mut self, tmpfsmount: &str, memory: Memory)
        ensures
            final(self).args.deep_view() == old(self).args.deep_view()
                + seq!["-m"@, spec_tmpfs_arg(tmpfsmount@, memory), "--env"@, spec_env_arg("TMPDIR"@, tmpfsmount@)],
            final(self).proc_writable == old(self).proc_writable,
            final(self).current_dir == old(self).current_dir,
    {
        self.push_str_arg("-m");
        let mut cs: Vec<char> = Vec::new();
        push_chars(&mut cs, "none:");
        push_chars(&mut cs, tmpfsmount);
        push_chars(&mut cs, ":tmpfs:size=");
        push_decimal(memory.as_bytes(), &mut cs);
        assert(cs@ =~= spec_tmpfs_arg(tmpfsmount@, memory));
        self.push_string_arg(chars_to_string(&cs));
        self.env("TMPDIR", tmpfsmount);
        assert(self.args.deep_view() =~= old(self).args.deep_view()
            + seq!["-m"@, spec_tmpfs_arg(tmpfsmount@, memory), "--env"@, spec_env_arg("TMPDIR"@, tmpfsmount@)]);
    }

    /// Mounts `path` read-only at the same path.
    pub fn mount_ro(&mut self, path: &str)
        ensures
            final(self).args.deep_view() == old(self).args.deep_view()
                + seq!["-R"@, spec_mount_arg(path@, path@)],
            final(self).proc_writable == old(self).proc_writable,
            final(self).current_dir == old(self).current_dir,
    {
        self.mount_ro_dest(path, path);
    }

    /// Mounts `src` read-only at `dest`.
    pub fn mount_ro_dest(&mut self, src: &str, dest: &str)
        ensures
            final(self).args.deep_view() == old(self).args.deep_view()
                + seq!["-R"@, spec_mount_arg(src@, dest@)],
            final(self).proc_writable == old(self).proc_writable,
            final(self).current_dir == old(self).current_dir,
    {
        self.push_str_arg("-R");
        self.push_mount_arg(src, dest);
        assert(self.args.deep_view() =~= old(self).args.deep_view()
            + seq!["-R"@, spec_mount_arg(src@, dest@)]);
    }

    /// Mounts `path` read-write at the same path.
    pub fn mount_rw(&mut self, path: &str)
        ensures
            final(self).args.deep_view() == old(self).args.deep_view()
                + seq!["-B"@, spec_mount_arg(path@, path@)],
            final(self).proc_writable == old(self).proc_writable,
            final(self).current_dir == old(self).current_dir,
    {
        self.mount_rw_dest(path, path);
    }

    /// Mounts `src` read-write at `dest`.
    pub fn mount_rw_dest(&mut self, src: &str, dest: &str)
        ensures
            final(self).args.deep_view() == old(self).args.deep_view()
                + seq!["-B"@, spec_mount_arg(src@, dest@)],
            final(self).proc_writable == old(self).proc_writable,
            final(self).current_dir == old(self).current_dir,
    {
        self.push_str_arg("-B");
        self.push_mount_arg(src, dest);
        assert(self.args.deep_view() =~= old(self).args.deep_view()
            + seq!["-B"@, spec_mount_arg(src@, dest@)]);
    }

    /// Makes the sandbox root writable.
    pub fn writable(&mut self)
        ensures
            final(self).args.deep_view() == old(self).args.deep_view() + seq!["--rw"@],
            final(self).proc_writable == old(self).proc_writable,
            final(self).current_dir == old(self).current_dir,
    {
        self.push_str_arg("--rw");
        assert(self.args.deep_view() =~= old(self).args.deep_view() + seq!["--rw"@]);
    }

    /// Appends one raw launcher argument.
    pub fn arg(&mut self, arg: &str)
        ensures
            final(self).args.deep_view() == old(self).args.deep_view() + seq![arg@],
            final(self).proc_writable == old(self).proc_writable,
            final(self).current_dir == old(self).current_dir,
    {
        self.push_str_arg(arg);
        assert(self.args.deep_view() =~= old(self).args.deep_view() + seq![arg@]);
    }

    /// Chooses the `/proc` policy instead of the default of hiding it.
    pub fn proc_writable(&mut self, is_writable: bool)
        ensures
            final(self).args == old(self).args,
            final(self).proc_writable == Some(is_writable),
            final(self).current_dir == old(self).current_dir,
    {
        self.proc_writable = Some(is_writable);
    }

    /// Writes the launcher's own log to `log_path`.
    pub fn log(&mut self, log_path: &str)
        ensures
            final(self).args.deep_view() == old(self).args.deep_view()
                + seq!["--log"@, log_path@],
            final(self).proc_writable == old(self).proc_writable,
            final(self).current_dir == old(self).current_dir,
    {
        self.push_str_arg("--log");
        self.push_str_arg(log_path);
        assert(self.args.deep_view() =~= old(self).args.deep_view() + seq!["--log"@, log_path@]);
    }

    /// The `/proc` policy arguments `build` appends: writable on request,
    /// read-only silence, or hidden by default.
    pub open spec fn spec_proc_args(proc_writable: Option<bool>) -> Seq<Seq<char>> {
        match proc_writable {
            Some(true) => seq!["--proc_rw"@],
            Some(false) => Seq::<Seq<char>>::empty(),
            None => seq!["--disable_proc"@],
        }
    }

    /// Finalizes the invocation: the accumulated arguments, the `/proc`
    /// policy, then the end-of-options marker.  The builder is consumed;
    /// the target command is appended after the marker by the caller.
    pub fn build(self) -> (r: (Vec<String>, Option<String>))
        ensures
            r.0.deep_view() == self.args.deep_view() + Self::spec_proc_args(self.proc_writable)
                + seq!["--"@],
            r.1 == self.current_dir,
    {
        let ghost a0 = self.args.deep_view();
        let ghost p0 = self.proc_writable;
        let NsJailBuilder { mut args, proc_writable, current_dir } = self;
        match proc_writable {
            Some(true) => {
                args.push("--proc_rw".to_owned());
            },
            Some(false) => {},
            None => {
                args.push("--disable_proc".to_owned());
            },
        }
        args.push("--".to_owned());
        assert(args.deep_view() =~= a0 + Self::spec_proc_args(p0) + seq!["--"@]);
        (args, current_dir)
    }

    /// The unconditional baseline of every invocation.
    fn write_args(args: &mut Vec<String>, env: &RunnerEnv)
        ensures
            final(args).deep_view() == old(args).deep_view() + spec_base_args(*env),
    {
        args.push("-Mo".to_owned());
        args.push("--user".to_owned());
        args.push(env.permission_id_str());
        args.push("--group".to_owned());
        args.push(env.permission_id_str());
        args.push("--detect_cgroupv2".to_owned());
        args.push("--bindmount_ro".to_owned());
        args.push("/dev/null".to_owned());
        args.push("--disable_clone_newnet".to_owned());
        args.push("--disable_clone_newuser".to_owned());
        args.push("--disable_clone_newipc".to_owned());
        args.push("--disable_clone_newuts".to_owned());
        args.push("--disable_clone_newcgroup".to_owned());
        // coarse virtual-memory backstop, in megabytes
        args.push("--rlimit_as".to_owned());
        args.push("9192".to_owned());
        args.push("-R".to_owned());
        args.push(env.nix_store_path.clone());
        args.push("-R".to_owned());
        args.push(env.nix_bin.clone());
        assert(args.deep_view() =~= old(args).deep_view() + spec_base_args(*env));
    }

    fn push_string_arg(&mut self, s: String)
        ensures
            final(self).args.deep_view() == old(self).args.deep_view() + seq![s@],
            final(self).proc_writable == old(self).proc_writable,
            final(self).current_dir == old(self).current_dir,
    {
        let ghost v = s@;
        self.args.push(s);
        assert(self.args.deep_view() =~= old(self).args.deep_view() + seq![v]);
    }

    fn push_str_arg(&mut self, s: &str)
        ensures
            final(self).args.deep_view() == old(self).args.deep_view() + seq![s@],
            final(self).proc_writable == old(self).proc_writable,
            final(self).current_dir == old(self).current_dir,
    {
        self.args.push(s.to_owned());
        assert(self.args.deep_view() =~= old(self).args.deep_view() + seq![s@]);
    }

    fn push_mount_arg(&mut self, src: &str, dest: &str)
        ensures
            final(self).args.deep_view() == old(self).args.deep_view()
                + seq![spec_mount_arg(src@, dest@)],
            final(self).proc_writable == old(self).proc_writable,
            final(self).current_dir == old(self).current_dir,
    {
        let mut cs: Vec<char> = Vec::new();
        push_chars(&mut cs, src);
        push_chars(&mut cs, ":");
        push_chars(&mut cs, dest);
        assert(cs@ =~= spec_mount_arg(src@, dest@));
        self.push_string_arg(chars_to_string(&cs));
    }
}

} // verus!
