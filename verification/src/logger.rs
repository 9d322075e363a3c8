//! The log file: where lines go and when the file is rotated.
use vstd::prelude::*;
use crate::model::FileConfig;
use crate::monitor::push_text;
use crate::text::{decimal_string, decimal_text};

verus! {

/// Where log lines are written, and how large the file may grow.
#[derive(Debug)]
pub struct Logger {
    pub log_file: String,
    pub enable_logging: bool,
    pub max_size_mb: u64,
    pub max_files: usize,
}

impl Logger {
    /// A logger for the log file of `config`, with logging on.
    pub fn new(config: &FileConfig) -> (l: Self)
        ensures
            l.log_file@ == config.log_file@,
            l.enable_logging,
            l.max_size_mb == config.max_log_size_mb,
            l.max_files == config.max_log_files,
    {
        Logger {
            log_file: config.log_file.clone(),
            enable_logging: true,
            max_size_mb: config.max_log_size_mb,
            max_files: config.max_log_files,
        }
    }
}

/// A step of a log rotation; each applies only where its source exists.
#[derive(Debug)]
pub enum RotationStep {
    Remove(String),
    Rename { from: String, to: String },
}

pub enum RotationStepView {
    Remove(Seq<char>),
    Rename(Seq<char>, Seq<char>),
}

impl View for RotationStep {
    type V = RotationStepView;

    open spec fn view(&self) -> RotationStepView {
        match self {
            RotationStep::Remove(p) => RotationStepView::Remove(p@),
            RotationStep::Rename { from, to } => RotationStepView::Rename(from@, to@),
        }
    }
}

pub open spec fn steps_view(v: Seq<RotationStep>) -> Seq<RotationStepView> {
    v.map_values(|s: RotationStep| s@)
}

/// The name of backup `n` of the log `base`: `base.n`.
pub open spec fn numbered(base: Seq<char>, n: nat) -> Seq<char> {
    base + "."@ + decimal_text(n)
}

/// The renames of backups `k`, `k - 1`, ..., `1` to the next number.
pub open spec fn shift_steps(base: Seq<char>, k: nat) -> Seq<RotationStepView>
    decreases k,
{
    if k == 0 {
        Seq::empty()
    } else {
        seq![RotationStepView::Rename(numbered(base, k), numbered(base, k + 1))] + shift_steps(
            base,
            (k - 1) as nat,
        )
    }
}

/// A rotation of the log `base` that keeps `max` backups: the oldest
/// backup goes, every other backup moves up one number, and the log
/// becomes backup 1.
pub open spec fn rotation_spec(base: Seq<char>, max: nat) -> Seq<RotationStepView> {
    seq![RotationStepView::Remove(numbered(base, max))] + shift_steps(
        base,
        if max >= 1 {
            (max - 1) as nat
        } else {
            0
        },
    ) + seq![RotationStepView::Rename(base, numbered(base, 1))]
}

/// The line written to the log for `message` at `level`.
pub open spec fn log_line_spec(timestamp: Seq<char>, level: Seq<char>, message: Seq<char>) -> Seq<
    char,
> {
    "["@ + timestamp + "] ["@ + level + "] "@ + message + "\n"@
}

fn numbered_exec(base: &str, n: usize) -> (s: String)
    ensures
        s@ == numbered(base@, n as nat),
{
    let mut s = String::from_str(base);
    push_text(&mut s, ".");
    let d = decimal_string(n as u64);
    push_text(&mut s, d.as_str());
    s
}

/// The line written to the log for `message` at `level`.
pub fn log_line(timestamp: &str, level: &str, message: &str) -> (s: String)
    ensures
        s@ == log_line_spec(timestamp@, level@, message@),
{
    let mut s = String::from_str("[");
    push_text(&mut s, timestamp);
    push_text(&mut s, "] [");
    push_text(&mut s, level);
    push_text(&mut s, "] ");
    push_text(&mut s, message);
    push_text(&mut s, "\n");
    s
}

impl Logger {
    /// The line to append to the log for `message` at `level`, stamped
    /// `timestamp`; none where logging is off.
    pub fn entry(&self, timestamp: &str, level: &str, message: &str) -> (r: Option<String>)
        ensures
            match r {
                Some(s) => self.enable_logging && s@ == log_line_spec(timestamp@, level@, message@),
                None => !self.enable_logging,
            },
    {
        if !self.enable_logging {
            return None;
        }
        Some(log_line(timestamp, level, message))
    }

    /// The largest size, in bytes, that the log may reach before rotation.
    pub open spec fn max_size_bytes(&self) -> int {
        self.max_size_mb * 1024 * 1024
    }

    /// Whether the log, of size `size` where its metadata could be read,
    /// has outgrown its limit.
    pub fn needs_rotation(&self, size: Option<u64>) -> (b: bool)
        requires
            self.max_size_bytes() <= u64::MAX,
        ensures
            b == (match size {
                Some(n) => n > self.max_size_bytes(),
                None => false,
            }),
    {
        let max_size = self.max_size_mb * 1024 * 1024;
        match size {
            Some(n) => n > max_size,
            None => false,
        }
    }

    /// The steps of a rotation of the log.
    pub fn rotation_plan(&self) -> (r: Vec<RotationStep>)
        ensures
            steps_view(r@) == rotation_spec(self.log_file@, self.max_files as nat),
    {
        let base = self.log_file.as_str();
        let mut r: Vec<RotationStep> = Vec::new();
        r.push(RotationStep::Remove(numbered_exec(base, self.max_files)));
        let ghost first = steps_view(r@);
        let top: usize = if self.max_files >= 1 {
            self.max_files - 1
        } else {
            0
        };
        let mut i: usize = top;
        assert(shift_steps(base@, top as nat) =~= Seq::<RotationStepView>::empty() + shift_steps(
            base@,
            top as nat,
        ));
        while i > 0
            invariant
                i <= top,
                top < usize::MAX,
                base@ == self.log_file@,
                steps_view(r@) + shift_steps(base@, i as nat) == first + shift_steps(
                    base@,
                    top as nat,
                ),
            decreases i,
        {
            let ghost before = steps_view(r@);
            r.push(
                RotationStep::Rename {
                    from: numbered_exec(base, i),
                    to: numbered_exec(base, i + 1),
                },
            );
            assert(steps_view(r@) =~= before.push(
                RotationStepView::Rename(numbered(base@, i as nat), numbered(base@, (i + 1) as nat)),
            ));
            assert(shift_steps(base@, i as nat) =~= seq![
                RotationStepView::Rename(numbered(base@, i as nat), numbered(base@, (i + 1) as nat)),
            ] + shift_steps(base@, (i - 1) as nat));
            assert(steps_view(r@) + shift_steps(base@, (i - 1) as nat) =~= before + shift_steps(
                base@,
                i as nat,
            ));
            i = i - 1;
        }
        let ghost before = steps_view(r@);
        r.push(RotationStep::Rename { from: String::from_str(base), to: numbered_exec(base, 1) });
        assert(steps_view(r@) =~= before.push(RotationStepView::Rename(base@, numbered(base@, 1))));
        assert(before =~= first + shift_steps(base@, top as nat));
        r
    }
}

} // verus!
