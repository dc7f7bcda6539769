use vstd::prelude::*;

verus! {

/// A JSON value handed in as a call parameter, as far as argument checking
/// reads it: a string, or anything else.
#[derive(Debug, PartialEq, Eq)]
pub enum RpcValue {
    Str(String),
    Other,
}

/// The parameters of a JSON-RPC call: none, a positional array, or a map of
/// named parameters.
#[derive(Debug, PartialEq, Eq)]
pub enum RpcParams {
    Absent,
    Array(Vec<RpcValue>),
    Named,
}

/// Why a call's parameters are refused; each is answered as an
/// "invalid params" error carrying `message`.
#[derive(Clone, Copy, Debug, PartialEq, Eq, Structural)]
pub enum ArgsError {
    /// An array element is not a string.
    NotAString,
    /// The parameters are not an array.
    NotAnArray,
    /// The array is empty, so it holds no API key.
    MissingApiKey,
}

/// The message that goes with each refusal.
pub open spec fn args_error_message(e: ArgsError) -> Seq<char> {
    match e {
        ArgsError::NotAString => "expecting strings"@,
        ArgsError::NotAnArray => "expecting an array of strings"@,
        ArgsError::MissingApiKey => "missing api key"@,
    }
}

impl ArgsError {
    /// The text of the "invalid params" error for this refusal.
    pub fn message(&self) -> (m: String)
        ensures
            m@ == args_error_message(*self),
    {
        match self {
            ArgsError::NotAString => String::from_str("expecting strings"),
            ArgsError::NotAnArray => String::from_str("expecting an array of strings"),
            ArgsError::MissingApiKey => String::from_str("missing api key"),
        }
    }
}

/// Whether every value is a string.
pub open spec fn all_strings(values: Seq<RpcValue>) -> bool {
    forall|i: int| 0 <= i < values.len() ==> (#[trigger] values[i]) is Str
}

/// What `parse_arguments` answers for `params`: the strings of a non-empty
/// array of strings, in order; otherwise the refusal for the first rule that
/// the parameters break.
pub open spec fn arguments_outcome(params: RpcParams) -> Result<Seq<Seq<char>>, ArgsError> {
    match params {
        RpcParams::Array(values) => if !all_strings(values@) {
            Err(ArgsError::NotAString)
        } else if values@.len() == 0 {
            Err(ArgsError::MissingApiKey)
        } else {
            Ok(values@.map_values(|v: RpcValue| v->Str_0@))
        },
        _ => Err(ArgsError::NotAnArray),
    }
}

/// The outcome of `parse_arguments` with each string taken by its view.
pub open spec fn arguments_view(r: Result<Vec<String>, ArgsError>) -> Result<
    Seq<Seq<char>>,
    ArgsError,
> {
    match r {
        Ok(v) => Ok(v@.map_values(|s: String| s@)),
        Err(e) => Err(e),
    }
}

/// Checks the parameters of a call: they must be a non-empty array of
/// strings, the first of which is the API key; hands back all the strings.
#[verifier::loop_isolation(false)]
pub fn parse_arguments(p: RpcParams) -> (r: Result<Vec<String>, ArgsError>)
    ensures
        arguments_view(r) == arguments_outcome(p),
{
    let mut result: Vec<String> = Vec::new();
    match p {
        RpcParams::Array(array) => {
            let n: usize = array.len();
            for k in 0..n
                invariant
                    n == array@.len(),
                    result@.len() == k,
                    forall|i: int| 0 <= i < k ==> (#[trigger] array@[i]) is Str,
                    forall|i: int|
                        0 <= i < k ==> (#[trigger] result@[i])@ == array@[i]->Str_0@,
            {
                match &array[k] {
                    RpcValue::Str(s) => result.push(s.clone()),
                    RpcValue::Other => {
                        assert(!(array@[k as int] is Str));
                        return Err(ArgsError::NotAString);
                    },
                }
            }
            if result.len() < 1 {
                return Err(ArgsError::MissingApiKey);
            }
            assert(result@.map_values(|s: String| s@) =~= array@.map_values(
                |v: RpcValue| v->Str_0@,
            ));
            Ok(result)
        },
        _ => Err(ArgsError::NotAnArray),
    }
}

} // verus!
