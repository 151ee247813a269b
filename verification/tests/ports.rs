use std::cell::RefCell;
use std::rc::Rc;
use std::time::Duration;

use nala::fetch_url::{FetchUrlArgs, FetchUrlTool};
use nala::ports::{Computer, ComputerError, HttpError, HttpFetcher, MemoryError, MemoryStore};
use nala::tools::{ExecuteCommandArgs, ExecuteCommandTool, RememberArgs, RememberTool};
use nala::web_search::{WebSearchArgs, WebSearchTool};

/// Records every URL asked for and answers with a fixed page.
struct RecordingFetcher {
    urls: Rc<RefCell<Vec<String>>>,
    page: Result<String, HttpError>,
}

impl HttpFetcher for RecordingFetcher {
    /// Promises nothing of the response.
    fn spec_fetches(&self, _url: &str, _r: &Result<String, HttpError>) -> bool {
        true
    }

    fn get(&self, url: &str) -> Result<String, HttpError> {
        self.urls.borrow_mut().push(url.to_string());
        self.page.clone()
    }
}

fn fetcher(page: Result<String, HttpError>) -> (RecordingFetcher, Rc<RefCell<Vec<String>>>) {
    let urls = Rc::new(RefCell::new(Vec::new()));
    (RecordingFetcher { urls: urls.clone(), page }, urls)
}

#[test]
fn fetch_url_asks_for_exactly_the_given_url() {
    let (f, urls) = fetcher(Ok("<p>Hola</p>".to_string()));
    let mut tool = FetchUrlTool::new(f);
    let text = tool.execute(FetchUrlArgs { url: "http://example.com/a?b=1".to_string() }).unwrap();
    assert_eq!(*urls.borrow(), vec!["http://example.com/a?b=1".to_string()]);
    assert_eq!(text, "Hola");
}

#[test]
fn fetch_url_refuses_other_schemes_before_any_request() {
    let (f, urls) = fetcher(Ok(String::new()));
    let mut tool = FetchUrlTool::new(f);
    let error = tool.execute(FetchUrlArgs { url: "file:///etc/passwd".to_string() }).unwrap_err();
    assert_eq!(error, HttpError::Request("only http and https URLs are supported".to_string()));
    assert!(urls.borrow().is_empty());
}

#[test]
fn fetch_url_passes_a_failed_fetch_on() {
    let (f, _urls) = fetcher(Err(HttpError::Status(404)));
    let mut tool = FetchUrlTool::new(f);
    assert_eq!(tool.execute(FetchUrlArgs { url: "https://example.com".to_string() }), Err(HttpError::Status(404)));
}

#[test]
fn web_search_asks_for_the_encoded_query() {
    let (f, urls) = fetcher(Ok("<html></html>".to_string()));
    let mut tool = WebSearchTool::new(f);
    let text = tool.execute(WebSearchArgs { query: "clima en Bogotá".to_string() }).unwrap();
    assert_eq!(*urls.borrow(), vec!["https://html.duckduckgo.com/html/?q=clima+en+Bogot%C3%A1".to_string()]);
    assert_eq!(text, "Sin resultados para esa búsqueda.");
}

/// Records what it is asked to remember.
struct RecordingStore {
    saved: Vec<(String, String)>,
    fails: bool,
}

impl MemoryStore for RecordingStore {
    /// Promises nothing of the answer.
    fn spec_remembers(&self, _key: String, _value: String, _r: &Result<(), MemoryError>) -> bool {
        true
    }

    fn facts(&mut self) -> Vec<(String, String)> {
        self.saved.clone()
    }

    fn remember(&mut self, key: String, value: String) -> Result<(), MemoryError> {
        if self.fails {
            return Err(MemoryError::Save("disk full".to_string()));
        }
        self.saved.push((key, value));
        Ok(())
    }
}

#[test]
fn remember_stores_the_key_with_its_value() {
    let mut tool = RememberTool::new(RecordingStore { saved: Vec::new(), fails: false });
    let args = RememberArgs { key: "color".to_string(), value: "azul".to_string() };
    assert_eq!(tool.execute(args), Ok("Recordado: color = azul".to_string()));
    assert_eq!(tool.facts(), vec![("color".to_string(), "azul".to_string())]);
}

#[test]
fn remember_passes_a_store_failure_on() {
    let mut tool = RememberTool::new(RecordingStore { saved: Vec::new(), fails: true });
    let args = RememberArgs { key: "color".to_string(), value: "azul".to_string() };
    assert_eq!(tool.execute(args), Err(MemoryError::Save("disk full".to_string())));
}

/// A computer whose context changes once a command has run.
struct ScriptedComputer {
    commands: Vec<String>,
    state: String,
}

impl Computer for ScriptedComputer {
    fn system_description(&self) -> &'static str {
        "test system"
    }

    fn process_description(&self) -> &'static str {
        "test shell"
    }

    /// Promises nothing of the results.
    fn spec_executes(&self, _command: &str, _timeout: Duration, _r: &Result<String, ComputerError>) -> bool {
        true
    }

    fn execute_command(&mut self, command: &str, _timeout: Duration) -> Result<String, ComputerError> {
        self.commands.push(command.to_string());
        if command == "fail" {
            return Err(ComputerError::CommandFailed("exit 1".to_string()));
        }
        self.state = format!("after {command}");
        Ok("ok".to_string())
    }

    /// Promises nothing of the context.
    fn spec_context(&self, _r: &Result<String, ComputerError>) -> bool {
        true
    }

    fn get_context(&mut self) -> Result<String, ComputerError> {
        Ok(self.state.clone())
    }
}

#[test]
fn a_command_runs_with_its_state_before_and_after_attached() {
    let mut tool = ExecuteCommandTool::new(ScriptedComputer { commands: Vec::new(), state: "idle".to_string() });
    let outcome = tool.run_with_evidence(ExecuteCommandArgs { command: "mkdir x".to_string() }).unwrap();
    assert_eq!(tool.computer.commands, vec!["mkdir x".to_string()]);
    assert!(outcome.mutated);
    assert!(outcome.text.starts_with("Command executed. Output: ok"));
    assert!(outcome.text.ends_with("\n\nState before:\nidle\n\nState after:\nafter mkdir x"));
}

#[test]
fn a_failed_command_is_returned_as_is() {
    let mut tool = ExecuteCommandTool::new(ScriptedComputer { commands: Vec::new(), state: "idle".to_string() });
    let error = tool.run_with_evidence(ExecuteCommandArgs { command: "fail".to_string() }).unwrap_err();
    assert_eq!(error, ComputerError::CommandFailed("exit 1".to_string()));
}
