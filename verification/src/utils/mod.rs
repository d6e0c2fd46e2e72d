//! What the test types exchange with the frontend.

pub mod machines;
pub mod messages;
pub mod steel_extractor;

use vstd::prelude::*;
use vstd::string::*;
use crate::utils::messages::ResponseMessage;

verus! {

/// A request of the frontend: the request it concerns and the test data.
pub struct RequestIdAndTestData<T> {
    pub request_id: String,
    pub test_data: T,
}

/// The test data sent back by the frontend with the rows it selected.
pub struct TestDataAndRows<T, R> {
    pub test_data: T,
    pub rows: Vec<Option<R>>,
}

/// A table the frontend shows for selection: rows (an empty row is a
/// spacer), the columns to show as `(field, title)`, a message, and, where
/// the test type gives them, a label for each row.
pub struct FrontendDialogData<R> {
    pub rows: Vec<Option<R>>,
    pub column_names: Vec<(&'static str, &'static str)>,
    pub message: ResponseMessage,
    pub labels: Option<Vec<String>>,
}

/// What a method receives.
#[derive(Clone, Copy, Debug, PartialEq, Eq, Structural)]
pub enum MethodInput {
    /// Receives the request id and the test data.
    ///
    /// See [`RequestIdAndTestData`]
    RequestIdAndTestData,
}

/// What a method returns.
pub enum MethodOutput {
    /// Returns a table that can be manipulated by the client,
    /// but which needs to be sent back with the test data in
    /// order to build the final result.
    NewTestDataAfterSelection { callback: String },
}

/// What a method is: its path, its name, and what it takes and gives.
pub struct MethodView {
    pub path: Seq<char>,
    pub name: Seq<char>,
    pub input: Option<MethodInput>,
    pub output: Option<MethodOutput>,
}

/// A method offered by a test type.
pub struct Method {
    path: String,
    name: String,
    input: Option<MethodInput>,
    output: Option<MethodOutput>,
}

impl View for Method {
    type V = MethodView;

    closed spec fn view(&self) -> MethodView {
        MethodView { path: self.path@, name: self.name@, input: self.input, output: self.output }
    }
}

impl Method {
    /// A method with a path and a name, taking and giving nothing in particular.
    pub fn new(path: &str, name: &str) -> (r: Self)
        ensures
            r@ == (MethodView { path: path@, name: name@, input: None, output: None }),
    {
        Method {
            path: String::from_str(path),
            name: String::from_str(name),
            input: None,
            output: None,
        }
    }

    /// The same method, receiving `input`.
    pub fn with_input(self, input: MethodInput) -> (r: Self)
        ensures
            r@ == (MethodView { input: Some(input), ..self@ }),
    {
        let mut m = self;
        m.input = Some(input);
        m
    }

    /// The same method, returning `output`.
    pub fn with_output(self, output: MethodOutput) -> (r: Self)
        ensures
            r@ == (MethodView { output: Some(output), ..self@ }),
    {
        let mut m = self;
        m.output = Some(output);
        m
    }

    /// The path of the method.
    pub fn path(&self) -> (r: &str)
        ensures
            r@ == self@.path,
    {
        self.path.as_str()
    }

    /// The name of the method.
    pub fn name(&self) -> (r: &str)
        ensures
            r@ == self@.name,
    {
        self.name.as_str()
    }

    /// What the method receives, if anything in particular.
    pub fn input(&self) -> (r: Option<MethodInput>)
        ensures
            r == self@.input,
    {
        self.input
    }

    /// What the method returns, if anything in particular.
    pub fn output(&self) -> (r: &Option<MethodOutput>)
        ensures
            *r == self@.output,
    {
        &self.output
    }
}

/// The methods of a test type, under the test's name.
pub struct MethodList {
    test_name: String,
    functions: Vec<Method>,
}

impl MethodList {
    /// The list of `functions` offered for the test named `test_name`.
    pub fn new(test_name: &str, functions: Vec<Method>) -> (r: Self)
        ensures
            r.test_name()@ == test_name@,
            r.functions()@ == functions@,
    {
        MethodList { test_name: String::from_str(test_name), functions }
    }

    /// The name of the test.
    pub closed spec fn test_name(&self) -> String {
        self.test_name
    }

    /// The methods.
    pub closed spec fn functions(&self) -> Vec<Method> {
        self.functions
    }

    /// The name of the test.
    pub fn name(&self) -> (r: &str)
        ensures
            r@ == self.test_name()@,
    {
        self.test_name.as_str()
    }

    /// The methods offered.
    pub fn methods(&self) -> (r: &Vec<Method>)
        ensures
            r@ == self.functions()@,
    {
        &self.functions
    }
}

} // verus!
