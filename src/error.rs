//! Validation failures: a message and two paths, each built innermost-first.
use itertools::Itertools;
use vstd::prelude::*;

verus! {

/// What a failure holds, as mathematical values.
pub struct ErrorView {
    pub message: Seq<char>,
    pub instance_path: Seq<Seq<char>>,
    pub schema_path: Seq<Seq<char>>,
}

/// A failure with `message` and empty paths.
pub open spec fn error_of(message: Seq<char>) -> ErrorView {
    ErrorView { message, instance_path: Seq::empty(), schema_path: Seq::empty() }
}

impl ErrorView {
    /// The failure with one more segment on its instance path.
    pub open spec fn with_instance(self, segment: Seq<char>) -> ErrorView {
        ErrorView { instance_path: self.instance_path.push(segment), ..self }
    }

    /// The failure with one more segment on its schema path.
    pub open spec fn with_schema(self, segment: Seq<char>) -> ErrorView {
        ErrorView { schema_path: self.schema_path.push(segment), ..self }
    }
}

/// The segments of `path` in order, separated by `sep`.
pub open spec fn joined(path: Seq<Seq<char>>, sep: Seq<char>) -> Seq<char>
    decreases path.len(),
{
    if path.len() == 0 {
        Seq::empty()
    } else if path.len() == 1 {
        path[0]
    } else {
        joined(path.drop_last(), sep) + sep + path.last()
    }
}

/// How a failure reads: `At <instance path> in schema <schema path>: <message>`.
/// The paths are held innermost-first, so each is reversed to read from the
/// root down, its segments separated by `/`.
pub open spec fn rendered(e: ErrorView) -> Seq<char> {
    "At "@ + joined(e.instance_path.reverse(), "/"@) + " in schema "@ + joined(
        e.schema_path.reverse(),
        "/"@,
    ) + ": "@ + e.message
}

/// The text of each segment.
pub open spec fn segments(path: Seq<String>) -> Seq<Seq<char>> {
    path.map_values(|s: String| s@)
}

/// A validation failure. The paths grow as the failure travels outwards, so
/// each holds its innermost segment first.
#[derive(Debug)]
pub struct ValidationError {
    pub msg: String,
    pub instance_path: Vec<String>,
    pub schema_path: Vec<String>,
}

impl View for ValidationError {
    type V = ErrorView;

    open spec fn view(&self) -> ErrorView {
        ErrorView {
            message: self.msg@,
            instance_path: segments(self.instance_path@),
            schema_path: segments(self.schema_path@),
        }
    }
}

/// Relies on itertools::Itertools::join: the text of each part in order,
/// with `sep` between each two.
#[verifier::external_body]
fn join(parts: &Vec<String>, sep: &str) -> (r: String)
    ensures
        r@ == joined(segments(parts@), sep@),
{
    parts.iter().join(sep)
}

/// The segments of `path`, last first.
fn reversed(path: &Vec<String>) -> (r: Vec<String>)
    ensures
        r@ == path@.reverse(),
{
    let mut r: Vec<String> = Vec::new();
    let mut i: usize = path.len();
    while i > 0
        invariant
            i <= path@.len(),
            r@.len() == path@.len() - i,
            forall|k: int| 0 <= k < r@.len() ==> #[trigger] r@[k] == path@[path@.len() - 1 - k],
        decreases i,
    {
        i = i - 1;
        r.push(path[i].clone());
    }
    assert(r@ =~= path@.reverse());
    r
}

/// The text of each segment of `path`, last first.
fn rendered_path(path: &Vec<String>) -> (r: String)
    ensures
        r@ == joined(segments(path@).reverse(), "/"@),
{
    let parts = reversed(path);
    proof {
        assert(segments(parts@) =~= segments(path@).reverse());
    }
    join(&parts, "/")
}

impl ValidationError {
    /// A failure with `msg` and empty paths.
    pub fn new(msg: &str) -> (r: ValidationError)
        ensures
            r@ == error_of(msg@),
    {
        let r = ValidationError {
            msg: String::from_str(msg),
            instance_path: Vec::new(),
            schema_path: Vec::new(),
        };
        proof {
            assert(segments(r.instance_path@) =~= Seq::empty());
            assert(segments(r.schema_path@) =~= Seq::empty());
        }
        r
    }

    /// Adds `segment` to the instance path.
    pub fn push_instance(&mut self, segment: String)
        ensures
            final(self)@ == old(self)@.with_instance(segment@),
    {
        self.instance_path.push(segment);
        proof {
            assert(segments(self.instance_path@) =~= segments(old(self).instance_path@).push(
                segment@,
            ));
        }
    }

    /// Adds `segment` to the schema path.
    pub fn push_schema(&mut self, segment: String)
        ensures
            final(self)@ == old(self)@.with_schema(segment@),
    {
        self.schema_path.push(segment);
        proof {
            assert(segments(self.schema_path@) =~= segments(old(self).schema_path@).push(
                segment@,
            ));
        }
    }

    /// The message.
    pub fn message(&self) -> (r: &String)
        ensures
            r@ == self@.message,
    {
        &self.msg
    }

    /// The failure as text, each path from the root down.
    pub fn to_text(&self) -> (r: String)
        ensures
            r@ == rendered(self@),
    {
        let at = String::from_str("At ");
        let r = at.concat(rendered_path(&self.instance_path).as_str());
        let r = r.concat(" in schema ");
        let r = r.concat(rendered_path(&self.schema_path).as_str());
        let r = r.concat(": ");
        r.concat(self.msg.as_str())
    }
}

} // verus!
