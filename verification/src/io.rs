//! The two sides of a conversation: where lines come from and where lines
//! go, with a reader and a writer that work on lists held in memory.

use vstd::prelude::*;
use crate::error::GeojsonError;

verus! {

/// A source of input, one line at a time.
pub trait InputReader {
    /// The next line, or an error where there is none.
    fn read_line(&mut self) -> Result<String, GeojsonError>;
}

/// A sink with two channels, one for what is said and one for complaints.
pub trait OutputWriter {
    /// Adds a line to what is said.
    fn write_line(&mut self, msg: &str) -> Result<(), GeojsonError>;

    /// Adds a line to the complaints.
    fn write_error(&mut self, msg: &str) -> Result<(), GeojsonError>;
}

/// A reader that hands out the lines of a list, first to last, and fails
/// once they are used up.
pub struct MockInputReader {
    inputs: Vec<String>,
    current: usize,
}

impl MockInputReader {
    #[verifier::type_invariant]
    spec fn well_formed(&self) -> bool {
        self.current <= self.inputs.len()
    }

    /// The lines that have not been read yet.
    pub closed spec fn pending(&self) -> Seq<Seq<char>> {
        self.inputs.deep_view().skip(self.current as int)
    }

    /// A reader of `inputs`.
    pub fn new(inputs: Vec<String>) -> (reader: Self)
        ensures
            reader.pending() == inputs.deep_view(),
    {
        Self { inputs, current: 0 }
    }
}

impl InputReader for MockInputReader {
    /// The first line that has not been read, which then counts as read.
    /// With no line left the reader fails, and goes on failing.
    fn read_line(&mut self) -> (line: Result<String, GeojsonError>)
        ensures
            match line {
                Ok(text) => {
                    &&& old(self).pending().len() > 0
                    &&& text@ == old(self).pending()[0]
                    &&& final(self).pending() == old(self).pending().drop_first()
                },
                Err(e) => {
                    &&& old(self).pending().len() == 0
                    &&& final(self).pending().len() == 0
                    &&& e matches GeojsonError::InvalidInput(what)
                    &&& what@ == "No more input available"@
                },
            },
    {
        proof {
            use_type_invariant(&*self);
        }
        if self.current < self.inputs.len() {
            let input = self.inputs[self.current].clone();
            self.current += 1;
            Ok(input)
        } else {
            Err(GeojsonError::InvalidInput("No more input available".to_owned()))
        }
    }
}

/// A writer that keeps what it is given, each channel in a list of its own.
pub struct MockOutputWriter {
    pub lines: Vec<String>,
    pub errors: Vec<String>,
}

impl MockOutputWriter {
    /// A writer that holds nothing yet.
    pub fn new() -> (writer: Self)
        ensures
            writer.lines@.len() == 0,
            writer.errors@.len() == 0,
    {
        Self { lines: Vec::new(), errors: Vec::new() }
    }
}

impl OutputWriter for MockOutputWriter {
    /// Keeps `msg` as the last of the lines. This never fails.
    fn write_line(&mut self, msg: &str) -> (done: Result<(), GeojsonError>)
        ensures
            done is Ok,
            final(self).lines.deep_view() == old(self).lines.deep_view().push(msg@),
            final(self).errors == old(self).errors,
    {
        self.lines.push(msg.to_owned());
        Ok(())
    }

    /// Keeps `msg` as the last of the complaints. This never fails.
    fn write_error(&mut self, msg: &str) -> (done: Result<(), GeojsonError>)
        ensures
            done is Ok,
            final(self).errors.deep_view() == old(self).errors.deep_view().push(msg@),
            final(self).lines == old(self).lines,
    {
        self.errors.push(msg.to_owned());
        Ok(())
    }
}

} // verus!
