use vstd::prelude::*;
use crate::error::GeneralError;
use crate::util::opt_text;

verus! {

/// How the engine is to run.
#[derive(Debug)]
pub struct MopperOptions {
    /// Write all output to standard output, whatever the targets of the plan say.
    force_to_std_out: bool,
    /// Write all output to this file, whatever the targets of the plan say, unless all
    /// output goes to standard output.
    force_to_file: Option<String>,
    /// The directory in which to look for source files that are not found as they are
    /// named.
    working_dir_hint: Option<String>,
    /// How many tuples a channel holds before the sender has to wait; with 0, sender and
    /// receiver meet for each tuple.
    message_buffer_capacity: usize,
    /// Drop what a sink has written before.
    deduplicate: bool,
}

/// Where all output goes whatever the targets of the plan say.
#[derive(Debug)]
pub enum ForcedOutput {
    StdOut,
    File(String),
    Nowhere,
}

/// The content of the options.
pub struct OptionsView {
    pub force_to_std_out: bool,
    pub force_to_file: Option<Seq<char>>,
    pub working_dir_hint: Option<Seq<char>>,
    pub message_buffer_capacity: usize,
    pub deduplicate: bool,
}

/// The options used where nothing else is said: output as the plan says, no hint for the
/// working directory, 128 tuples per channel, no deduplication.
pub open spec fn default_options() -> OptionsView {
    OptionsView {
        force_to_std_out: false,
        force_to_file: None,
        working_dir_hint: None,
        message_buffer_capacity: 128,
        deduplicate: false,
    }
}

impl MopperOptions {
    pub closed spec fn view(&self) -> OptionsView {
        OptionsView {
            force_to_std_out: self.force_to_std_out,
            force_to_file: opt_text(self.force_to_file),
            working_dir_hint: opt_text(self.working_dir_hint),
            message_buffer_capacity: self.message_buffer_capacity,
            deduplicate: self.deduplicate,
        }
    }

    pub fn force_to_std_out(&self) -> (r: bool)
        ensures
            r == self@.force_to_std_out,
    {
        self.force_to_std_out
    }

    pub fn force_to_file(&self) -> (r: &Option<String>)
        ensures
            opt_text(*r) == self@.force_to_file,
    {
        &self.force_to_file
    }

    pub fn working_dir_hint(&self) -> (r: &Option<String>)
        ensures
            opt_text(*r) == self@.working_dir_hint,
    {
        &self.working_dir_hint
    }

    pub fn message_buffer_capacity(&self) -> (r: usize)
        ensures
            r == self@.message_buffer_capacity,
    {
        self.message_buffer_capacity
    }

    pub fn deduplicate(&self) -> (r: bool)
        ensures
            r == self@.deduplicate,
    {
        self.deduplicate
    }

    /// Where all output is forced to go: to standard output if that is asked for, else to
    /// the file that is asked for, else nowhere.
    pub fn forced_output(&self) -> (r: ForcedOutput)
        ensures
            match r {
                ForcedOutput::StdOut => self@.force_to_std_out,
                ForcedOutput::File(path) => !self@.force_to_std_out && self@.force_to_file == Some(
                    path@,
                ),
                ForcedOutput::Nowhere => !self@.force_to_std_out && self@.force_to_file is None,
            },
    {
        if self.force_to_std_out {
            ForcedOutput::StdOut
        } else {
            match &self.force_to_file {
                Some(path) => ForcedOutput::File(path.clone()),
                None => ForcedOutput::Nowhere,
            }
        }
    }

    /// Whether all targets are to be one: where output is forced to standard output or to
    /// a file.
    pub fn to_one_target(&self) -> (r: bool)
        ensures
            r == (self@.force_to_std_out || self@.force_to_file is Some),
    {
        self.force_to_std_out || self.force_to_file.is_some()
    }
}

impl Default for MopperOptions {
    fn default() -> (r: Self)
        ensures
            r@ == default_options(),
    {
        MopperOptions {
            force_to_std_out: false,
            force_to_file: None,
            working_dir_hint: None,
            message_buffer_capacity: 128,
            deduplicate: false,
        }
    }
}

/// Gathers options one by one; what is not set keeps its default.
pub struct MopperOptionsBuilder {
    force_to_std_out: bool,
    force_to_file: Option<String>,
    working_dir_hint: Option<String>,
    message_buffer_capacity: usize,
    deduplicate: bool,
}

impl MopperOptionsBuilder {
    /// The options that `build` will give.
    pub closed spec fn view(&self) -> OptionsView {
        OptionsView {
            force_to_std_out: self.force_to_std_out,
            force_to_file: opt_text(self.force_to_file),
            working_dir_hint: opt_text(self.working_dir_hint),
            message_buffer_capacity: self.message_buffer_capacity,
            deduplicate: self.deduplicate,
        }
    }

    pub fn force_to_std_out(&mut self, value: bool) -> (r: &mut Self)
        ensures
            *final(r) == *final(self),
            r@ == (OptionsView { force_to_std_out: value, ..old(self)@ }),
    {
        self.force_to_std_out = value;
        self
    }

    pub fn force_to_file(&mut self, value: &str) -> (r: &mut Self)
        ensures
            *final(r) == *final(self),
            r@ == (OptionsView { force_to_file: Some(value@), ..old(self)@ }),
    {
        self.force_to_file = Some(value.to_string());
        self
    }

    pub fn working_dir_hint(&mut self, value: &str) -> (r: &mut Self)
        ensures
            *final(r) == *final(self),
            r@ == (OptionsView { working_dir_hint: Some(value@), ..old(self)@ }),
    {
        self.working_dir_hint = Some(value.to_string());
        self
    }

    pub fn message_buffer_capacity(&mut self, value: usize) -> (r: &mut Self)
        ensures
            *final(r) == *final(self),
            r@ == (OptionsView { message_buffer_capacity: value, ..old(self)@ }),
    {
        self.message_buffer_capacity = value;
        self
    }

    pub fn deduplicate(&mut self, value: bool) -> (r: &mut Self)
        ensures
            *final(r) == *final(self),
            r@ == (OptionsView { deduplicate: value, ..old(self)@ }),
    {
        self.deduplicate = value;
        self
    }

    /// The options gathered. Every option has a default, so this does not fail.
    pub fn build(&self) -> (r: Result<MopperOptions, GeneralError>)
        ensures
            r is Ok,
            r->Ok_0@ == self@,
    {
        Ok(
            MopperOptions {
                force_to_std_out: self.force_to_std_out,
                force_to_file: match &self.force_to_file {
                    Some(s) => Some(s.clone()),
                    None => None,
                },
                working_dir_hint: match &self.working_dir_hint {
                    Some(s) => Some(s.clone()),
                    None => None,
                },
                message_buffer_capacity: self.message_buffer_capacity,
                deduplicate: self.deduplicate,
            },
        )
    }
}

impl Default for MopperOptionsBuilder {
    fn default() -> (r: Self)
        ensures
            r@ == default_options(),
    {
        MopperOptionsBuilder {
            force_to_std_out: false,
            force_to_file: None,
            working_dir_hint: None,
            message_buffer_capacity: 128,
            deduplicate: false,
        }
    }
}

} // verus!
