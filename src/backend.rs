use vstd::prelude::*;

verus! {

/// A handle on the sandboxed execution backend; its operations run outside this library.
pub struct NexosInstance {}

/// One line of captured backend output.
#[derive(Debug, Clone, PartialEq, Eq)]
pub enum LogLine {
    StdOut { message: String },
    StdErr { message: String },
}

/// What the backend returned for one request.
#[derive(Debug, Clone, PartialEq, Eq)]
pub struct DockerResult {
    pub output: Vec<LogLine>,
    pub exit_code: i32,
}

/// Work that the evaluation of a message asks of the execution backend.
#[derive(Debug, Clone, PartialEq, Eq)]
pub enum BackendRequest {
    /// Run a shell command in the sandbox.
    Execute(String),
    /// Rebuild the sandbox image.
    Rebuild,
}

pub enum BackendRequestView {
    Execute(Seq<char>),
    Rebuild,
}

impl View for BackendRequest {
    type V = BackendRequestView;

    open spec fn view(&self) -> BackendRequestView {
        match self {
            BackendRequest::Execute(c) => BackendRequestView::Execute(c@),
            BackendRequest::Rebuild => BackendRequestView::Rebuild,
        }
    }
}

pub open spec fn line_text(l: LogLine) -> Seq<char> {
    match l {
        LogLine::StdOut { message } => message@,
        LogLine::StdErr { message } => message@,
    }
}

/// All output lines, standard output and standard error alike, joined in order.
pub open spec fn output_text(lines: Seq<LogLine>) -> Seq<char>
    decreases lines.len(),
{
    if lines.len() == 0 {
        seq![]
    } else {
        output_text(lines.drop_last()) + line_text(lines.last())
    }
}

pub open spec fn outputs_texts(v: Seq<DockerResult>) -> Seq<Seq<char>> {
    v.map_values(|d: DockerResult| output_text(d.output@))
}

impl DockerResult {
    /// The captured output joined into one text.
    pub fn text(&self) -> (r: String)
        ensures
            r@ == output_text(self.output@),
    {
        let mut r = String::new();
        for i in 0..self.output.len()
            invariant
                r@ == output_text(self.output@.take(i as int)),
        {
            assert(self.output@.take(i + 1).drop_last() =~= self.output@.take(i as int));
            match &self.output[i] {
                LogLine::StdOut { message } => r.append(message.as_str()),
                LogLine::StdErr { message } => r.append(message.as_str()),
            }
        }
        assert(self.output@.take(self.output.len() as int) =~= self.output@);
        r
    }
}

} // verus!
