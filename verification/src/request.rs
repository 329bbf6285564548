//! The request side of the wire protocol: command tags and the tagged
//! request record, with its well-formedness rule (exactly the fields
//! relevant to the command are populated).

use vstd::prelude::*;

verus! {

/// The command discriminator of a request line.
#[derive(Clone, Copy, PartialEq, Eq, Structural, Debug)]
pub enum Command {
    Init,
    AddDocuments,
    Ask,
    RemoveDocument,
    VoiceInput,
}

impl Command {
    /// The tag string written on the wire for this command.
    pub open spec fn tag(self) -> Seq<char> {
        match self {
            Command::Init => seq!['i', 'n', 'i', 't'],
            Command::AddDocuments => seq![
                'a', 'd', 'd', '_', 'd', 'o', 'c', 'u', 'm', 'e', 'n', 't', 's',
            ],
            Command::Ask => seq!['a', 's', 'k'],
            Command::RemoveDocument => seq![
                'r', 'e', 'm', 'o', 'v', 'e', '_', 'd', 'o', 'c', 'u', 'm', 'e', 'n', 't',
            ],
            Command::VoiceInput => seq!['v', 'o', 'i', 'c', 'e', '_', 'i', 'n', 'p', 'u', 't'],
        }
    }
}

/// The mathematical model of a request: the command and the optional
/// fields as plain sequences of characters.
pub struct ReqModel {
    pub command: Command,
    pub question: Option<Seq<char>>,
    pub paths: Option<Seq<Seq<char>>>,
    pub name: Option<Seq<char>>,
}

impl ReqModel {
    /// Exactly the fields relevant to the command are present; all
    /// others are absent.
    pub open spec fn wf(self) -> bool {
        match self.command {
            Command::Init => self.question is None && self.paths is None && self.name is None,
            Command::AddDocuments => self.question is None && self.paths is Some
                && self.name is None,
            Command::Ask => self.question is Some && self.paths is None && self.name is None,
            Command::RemoveDocument => self.question is None && self.paths is None
                && self.name is Some,
            Command::VoiceInput => self.question is None && self.paths is None
                && self.name is None,
        }
    }
}

/// One request frame: a command tag plus the optional command-specific
/// fields. Fields irrelevant to the command stay `None` and are omitted
/// from the wire encoding, not written as null.
pub struct Request {
    pub command: Command,
    pub question: Option<String>,
    pub paths: Option<Vec<String>>,
    pub name: Option<String>,
}

pub open spec fn strings_view(v: Seq<String>) -> Seq<Seq<char>> {
    v.map_values(|s: String| s@)
}

impl View for Request {
    type V = ReqModel;

    open spec fn view(&self) -> ReqModel {
        ReqModel {
            command: self.command,
            question: match self.question {
                Some(q) => Some(q@),
                None => None,
            },
            paths: match self.paths {
                Some(ps) => Some(strings_view(ps@)),
                None => None,
            },
            name: match self.name {
                Some(n) => Some(n@),
                None => None,
            },
        }
    }
}

impl Request {
    pub open spec fn wf(&self) -> bool {
        self@.wf()
    }

    /// The request sent by the `initialize` operation.
    pub fn init() -> (r: Request)
        ensures
            r@.command == Command::Init,
            r.wf(),
    {
        Request { command: Command::Init, question: None, paths: None, name: None }
    }

    /// The request sent by the `addDocuments` operation.
    pub fn add_documents(paths: Vec<String>) -> (r: Request)
        ensures
            r@.command == Command::AddDocuments,
            r@.paths == Some(strings_view(paths@)),
            r.wf(),
    {
        Request { command: Command::AddDocuments, question: None, paths: Some(paths), name: None }
    }

    /// The request sent by the `ask` operation.
    pub fn ask(question: String) -> (r: Request)
        ensures
            r@.command == Command::Ask,
            r@.question == Some(question@),
            r.wf(),
    {
        Request { command: Command::Ask, question: Some(question), paths: None, name: None }
    }

    /// The request sent by the `removeDocument` operation.
    pub fn remove_document(name: String) -> (r: Request)
        ensures
            r@.command == Command::RemoveDocument,
            r@.name == Some(name@),
            r.wf(),
    {
        Request { command: Command::RemoveDocument, question: None, paths: None, name: Some(name) }
    }

    /// The request sent by the `recordAndTranscribe` operation.
    pub fn voice_input() -> (r: Request)
        ensures
            r@.command == Command::VoiceInput,
            r.wf(),
    {
        Request { command: Command::VoiceInput, question: None, paths: None, name: None }
    }
}

} // verus!
