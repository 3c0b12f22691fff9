//! Errors with a kind, a chain of context strings and an optional cause.

use vstd::prelude::*;
use vstd::string::*;

verus! {

/// A kind of error that can say what it is.
pub trait Describe {
    /// The text that stands for this kind.
    spec fn description(&self) -> Seq<char>;

    /// The text that stands for this kind.
    fn describe(&self) -> (text: String)
        ensures
            text@ == self.description(),
    ;
}

/// What can go wrong with a schema.
#[derive(Debug, Clone, Copy, PartialEq, Eq, Structural)]
pub enum SchemaErrorKind {
    Io,
    ValueParse,
    InvalidSchema,
    RefResolution,
}

/// What can go wrong while a document is annotated.
#[derive(Debug, Clone, Copy, PartialEq, Eq, Structural)]
pub enum AnnotatorErrorKind {
    /// The target text does not follow the grammar of its format.
    Parse,
    /// Reading or writing failed.
    Io,
}

impl Describe for SchemaErrorKind {
    open spec fn description(&self) -> Seq<char> {
        match self {
            SchemaErrorKind::Io => "I/O error"@,
            SchemaErrorKind::ValueParse => "failed to parse value"@,
            SchemaErrorKind::InvalidSchema => "invalid schema"@,
            SchemaErrorKind::RefResolution => "failed to resolve $ref"@,
        }
    }

    fn describe(&self) -> (text: String) {
        match self {
            SchemaErrorKind::Io => "I/O error".to_owned(),
            SchemaErrorKind::ValueParse => "failed to parse value".to_owned(),
            SchemaErrorKind::InvalidSchema => "invalid schema".to_owned(),
            SchemaErrorKind::RefResolution => "failed to resolve $ref".to_owned(),
        }
    }
}

impl Describe for AnnotatorErrorKind {
    open spec fn description(&self) -> Seq<char> {
        match self {
            AnnotatorErrorKind::Parse => "failed to parse target document"@,
            AnnotatorErrorKind::Io => "I/O error"@,
        }
    }

    fn describe(&self) -> (text: String) {
        match self {
            AnnotatorErrorKind::Parse => "failed to parse target document".to_owned(),
            AnnotatorErrorKind::Io => "I/O error".to_owned(),
        }
    }
}

/// An error of kind `K`, the context that callers attached to it on its way
/// out (innermost first), and the message of the error that caused it.
#[derive(Debug)]
pub struct Error<K> {
    pub kind: K,
    pub context: Vec<String>,
    pub source: Option<String>,
}

/// An error about a schema.
pub type SchemaError = Error<SchemaErrorKind>;

/// An error about annotating a document.
pub type AnnotatorError = Error<AnnotatorErrorKind>;

/// The views of the context strings.
pub open spec fn context_view(context: Seq<String>) -> Seq<Seq<char>> {
    Seq::new(context.len(), |i: int| context[i]@)
}

/// The context strings, most recent first, separated by a comma and a space.
pub open spec fn context_list(context: Seq<Seq<char>>) -> Seq<char>
    decreases context.len(),
{
    if context.len() == 0 {
        Seq::empty()
    } else if context.len() == 1 {
        context[0]
    } else {
        context.last() + seq![',', ' '] + context_list(context.drop_last())
    }
}

/// The text of an error: its kind, and where it has context, the context in
/// square brackets, most recent first.
pub open spec fn rendered(kind: Seq<char>, context: Seq<Seq<char>>) -> Seq<char> {
    if context.len() == 0 {
        kind
    } else {
        kind + " context: ["@ + context_list(context) + seq![']']
    }
}

impl<K> Error<K> {
    /// An error of the given kind, without context or cause.
    pub fn new(kind: K) -> (e: Error<K>)
        ensures
            e.kind == kind,
            e.context@ == Seq::<String>::empty(),
            e.source is None,
    {
        Error { kind, context: Vec::new(), source: None }
    }

    /// The same error with its kind passed through `mapper`.
    pub fn map_kind<NK, F: Fn(K) -> NK>(self, mapper: F) -> (e: Error<NK>)
        requires
            call_requires(mapper, (self.kind,)),
        ensures
            call_ensures(mapper, (self.kind,), e.kind),
            e.context == self.context,
            e.source == self.source,
    {
        Error { kind: mapper(self.kind), context: self.context, source: self.source }
    }

    /// The same error with one more context string, which becomes the most
    /// recent one.
    pub fn add_context(self, context: &str) -> (e: Error<K>)
        ensures
            e.kind == self.kind,
            context_view(e.context@) == context_view(self.context@).push(context@),
            e.source == self.source,
    {
        let mut list = self.context;
        list.push(context.to_owned());
        assert(context_view(list@) =~= context_view(self.context@).push(context@));
        Error { kind: self.kind, context: list, source: self.source }
    }

    /// The same error with `source` as the message of its cause.
    pub fn with_source(self, source: &str) -> (e: Error<K>)
        ensures
            e.kind == self.kind,
            e.context == self.context,
            e.source matches Some(s) && s@ == source@,
    {
        Error { kind: self.kind, context: self.context, source: Some(source.to_owned()) }
    }

    /// The same error with the boxed `source` as the message of its cause.
    pub fn with_boxed_source(self, source: Box<String>) -> (e: Error<K>)
        ensures
            e.kind == self.kind,
            e.context == self.context,
            e.source == Some(*source),
    {
        Error { kind: self.kind, context: self.context, source: Some(*source) }
    }
}

impl<K: Describe> Error<K> {
    /// The text of the error.
    pub fn render(&self) -> (text: String)
        ensures
            text@ == rendered(self.kind.description(), context_view(self.context@)),
    {
        let mut text = self.kind.describe();
        if self.context.len() > 0 {
            let ghost kind = text@;
            let ghost context = context_view(self.context@);
            proof {
                reveal_strlit(", ");
                reveal_strlit("]");
            }
            text.append(" context: [");
            let mut i: usize = self.context.len();
            assert(context.take(i as int) =~= context);
            while i > 0
                invariant
                    i <= self.context.len(),
                    context == context_view(self.context@),
                    ", "@ == seq![',', ' '],
                    context.len() > 0,
                    text@ + context_list(context.take(i as int)) == kind + " context: ["@
                        + context_list(context),
                decreases i,
            {
                i -= 1;
                let ghost before = text@;
                text.append(self.context[i].as_str());
                if i > 0 {
                    text.append(", ");
                }
                proof {
                    let upper = context.take(i + 1);
                    assert(upper.last() == context[i as int]);
                    assert(upper.drop_last() =~= context.take(i as int));
                    if i > 0 {
                        assert(text@ + context_list(context.take(i as int)) =~= before
                            + context_list(upper));
                    } else {
                        assert(context.take(0) =~= Seq::<Seq<char>>::empty());
                        assert(text@ + context_list(context.take(0)) =~= before + context_list(
                            upper,
                        ));
                    }
                }
            }
            proof {
                assert(context.take(0) =~= Seq::<Seq<char>>::empty());
                assert(text@ =~= text@ + Seq::<char>::empty());
            }
            text.append("]");
        }
        text
    }
}

impl<K> From<K> for Error<K> {
    fn from(value: K) -> (e: Error<K>)
        ensures
            e.kind == value,
            e.context@ == Seq::<String>::empty(),
            e.source is None,
    {
        Error::new(value)
    }
}

impl<K> vstd::std_specs::convert::FromSpecImpl<K> for Error<K> {
    /// The conversion is stated by the `ensures` of `from`: a value with an
    /// empty list of context strings cannot be written down here.
    open spec fn obeys_from_spec() -> bool {
        false
    }

    open spec fn from_spec(value: K) -> Error<K> {
        arbitrary()
    }
}

/// Attaching context to the error of a result.
pub trait ResultExt<T, K>: Sized {
    /// The outcome seen as a plain result.
    spec fn outcome(self) -> Result<T, Error<K>>;

    /// The same result; an error gets `context` as its most recent context.
    fn add_context(self, context: &str) -> (r: Result<T, Error<K>>)
        ensures
            match (self.outcome(), r) {
                (Ok(a), Ok(b)) => a == b,
                (Err(a), Err(b)) => b.kind == a.kind && b.source == a.source && context_view(
                    b.context@,
                ) == context_view(a.context@).push(context@),
                _ => false,
            },
    ;

    /// The same result; an error gets what `context` returns as its most
    /// recent context. `context` is not called on a success.
    fn add_context_fn<F: FnOnce() -> String>(self, context: F) -> (r: Result<T, Error<K>>)
        requires
            call_requires(context, ()),
        ensures
            match (self.outcome(), r) {
                (Ok(a), Ok(b)) => a == b,
                (Err(a), Err(b)) => b.kind == a.kind && b.source == a.source && exists|
                    c: String,
                |
                    call_ensures(context, (), c) && context_view(b.context@) == context_view(
                        a.context@,
                    ).push(c@),
                _ => false,
            },
    ;
}

impl<T, K> ResultExt<T, K> for Result<T, Error<K>> {
    open spec fn outcome(self) -> Result<T, Error<K>> {
        self
    }

    fn add_context(self, context: &str) -> (r: Result<T, Error<K>>) {
        match self {
            Ok(value) => Ok(value),
            Err(error) => Err(error.add_context(context)),
        }
    }

    fn add_context_fn<F: FnOnce() -> String>(self, context: F) -> (r: Result<T, Error<K>>) {
        match self {
            Ok(value) => Ok(value),
            Err(error) => {
                let c = context();
                Err(error.add_context(c.as_str()))
            },
        }
    }
}

} // verus!
