//! What a control request asks of the engine: the method named and the
//! parameters it needs, each checked in the order the engine reads them,
//! into a command the host then carries out.
use vstd::prelude::*;
use vstd::string::StringSliceAdditionalSpecFns;

verus! {

broadcast use vstd::utf8::encode_utf8_decode_utf8;

/// An element of a list parameter, as far as a request is read: of a list,
/// its first two elements as whole numbers where they are.
#[derive(Debug, Clone, Copy, PartialEq, Eq, Structural)]
pub enum Item {
    Null,
    Bool,
    Str,
    Number,
    List(Option<u64>, Option<u64>),
    Object,
}

/// A parameter of a request. A number keeps its value where it is a whole
/// number that fits 64 bits.
#[derive(Debug, Clone)]
pub enum Param {
    Null,
    Bool(bool),
    Str(String),
    Number(Option<u64>),
    List(Vec<Item>),
    Object,
}

/// Why a request cannot be carried out.
#[derive(Debug, Clone, Copy, PartialEq, Eq)]
pub enum RpcError {
    /// The parameter of this name is not there.
    Missing(&'static str),
    /// The parameter of this name is not a string.
    NotString(&'static str),
    /// The parameter of this name is not a whole number.
    NotNumber(&'static str),
    /// A mapping is not a list.
    MappingNotPair,
    /// A mapping's first two elements are not both whole numbers.
    BadMapping,
    /// The value to set is a list or an object.
    ValueNotAcrossAbi,
    /// The payload element at this index is a list or an object.
    PayloadNotAcrossAbi(usize),
    /// No method has this name.
    UnknownMethod,
}

/// What a request asks the engine to do.
#[derive(Debug)]
pub enum Command {
    Describe,
    CreatePipeline { name: String },
    CreatePlugin { library: String },
    AddNode { pipeline: usize, plugin: String },
    Connect { pipeline: usize, from: usize, to: usize, mappings: Vec<(usize, usize)> },
    Subscribe { from: String, event: usize, to: String, command: usize, mappings: Vec<(usize, usize)> },
    Unsubscribe { from: String, event: usize, to: String, command: usize },
    /// The value is the request's `value` parameter, which can cross.
    SetParameter { plugin: String, field: usize },
    /// The message is the request's `payload` list, each element of which
    /// can cross; none where there is no list.
    Invoke { plugin: String, command: usize },
    SetNodeRunning { pipeline: usize, node: usize, running: bool },
    SetNodeName { pipeline: usize, node: usize, name: String },
    Start { pipeline: usize },
    Stop { pipeline: usize },
}

/// A command with its strings and mappings as sequences.
pub enum CommandView {
    Describe,
    CreatePipeline { name: Seq<char> },
    CreatePlugin { library: Seq<char> },
    AddNode { pipeline: usize, plugin: Seq<char> },
    Connect { pipeline: usize, from: usize, to: usize, mappings: Seq<(usize, usize)> },
    Subscribe { from: Seq<char>, event: usize, to: Seq<char>, command: usize, mappings: Seq<(usize, usize)> },
    Unsubscribe { from: Seq<char>, event: usize, to: Seq<char>, command: usize },
    SetParameter { plugin: Seq<char>, field: usize },
    Invoke { plugin: Seq<char>, command: usize },
    SetNodeRunning { pipeline: usize, node: usize, running: bool },
    SetNodeName { pipeline: usize, node: usize, name: Seq<char> },
    Start { pipeline: usize },
    Stop { pipeline: usize },
}

impl View for Command {
    type V = CommandView;

    open spec fn view(&self) -> CommandView {
        match self {
            Command::Describe => CommandView::Describe,
            Command::CreatePipeline { name } => CommandView::CreatePipeline { name: name@ },
            Command::CreatePlugin { library } => CommandView::CreatePlugin { library: library@ },
            Command::AddNode { pipeline, plugin } => CommandView::AddNode { pipeline: *pipeline, plugin: plugin@ },
            Command::Connect { pipeline, from, to, mappings } => CommandView::Connect {
                pipeline: *pipeline,
                from: *from,
                to: *to,
                mappings: mappings@,
            },
            Command::Subscribe { from, event, to, command, mappings } => CommandView::Subscribe {
                from: from@,
                event: *event,
                to: to@,
                command: *command,
                mappings: mappings@,
            },
            Command::Unsubscribe { from, event, to, command } => CommandView::Unsubscribe {
                from: from@,
                event: *event,
                to: to@,
                command: *command,
            },
            Command::SetParameter { plugin, field } => CommandView::SetParameter { plugin: plugin@, field: *field },
            Command::Invoke { plugin, command } => CommandView::Invoke { plugin: plugin@, command: *command },
            Command::SetNodeRunning { pipeline, node, running } => CommandView::SetNodeRunning {
                pipeline: *pipeline,
                node: *node,
                running: *running,
            },
            Command::SetNodeName { pipeline, node, name } => CommandView::SetNodeName {
                pipeline: *pipeline,
                node: *node,
                name: name@,
            },
            Command::Start { pipeline } => CommandView::Start { pipeline: *pipeline },
            Command::Stop { pipeline } => CommandView::Stop { pipeline: *pipeline },
        }
    }
}

/// Whether two texts are the same.
fn same_text(a: &str, b: &str) -> (r: bool)
    ensures
        r == (a@ == b@),
{
    let x = a.as_bytes();
    let y = b.as_bytes();
    if x.len() != y.len() {
        return false;
    }
    let mut i: usize = 0;
    while i < x.len()
        invariant
            x@.len() == y@.len(),
            x@ == a.spec_bytes(),
            y@ == b.spec_bytes(),
            i <= x@.len(),
            forall|j: int| 0 <= j < i ==> x@[j] == y@[j],
        decreases x@.len() - i,
    {
        if x[i] != y[i] {
            return false;
        }
        i = i + 1;
    }
    proof {
        assert(x@ =~= y@);
        assert(vstd::utf8::decode_utf8(a.spec_bytes()) == vstd::utf8::decode_utf8(b.spec_bytes()));
    }
    true
}

/// The first parameter from `i` on named `name`.
pub open spec fn spec_find(params: Seq<(String, Param)>, name: Seq<char>, i: int) -> Option<int>
    decreases params.len() - i,
{
    if i < 0 || i >= params.len() {
        None
    } else if params[i].0@ == name {
        Some(i)
    } else {
        spec_find(params, name, i + 1)
    }
}

/// The parameter named `name`.
pub open spec fn spec_param(params: Seq<(String, Param)>, name: Seq<char>) -> Option<Param> {
    match spec_find(params, name, 0) {
        None => None,
        Some(i) => Some(params[i].1),
    }
}

/// The string parameter `name`.
pub open spec fn spec_str(params: Seq<(String, Param)>, name: &'static str) -> Result<Seq<char>, RpcError> {
    match spec_param(params, name@) {
        None => Err(RpcError::Missing(name)),
        Some(Param::Str(s)) => Ok(s@),
        Some(_) => Err(RpcError::NotString(name)),
    }
}

/// The whole-number parameter `name`, as an index.
pub open spec fn spec_index(params: Seq<(String, Param)>, name: &'static str) -> Result<usize, RpcError> {
    match spec_param(params, name@) {
        None => Err(RpcError::Missing(name)),
        Some(Param::Number(Some(v))) => Ok(v as usize),
        Some(_) => Err(RpcError::NotNumber(name)),
    }
}

/// The flag parameter `name`: it must be there, and anything but `true`
/// counts as false.
pub open spec fn spec_flag(params: Seq<(String, Param)>, name: &'static str) -> Result<bool, RpcError> {
    match spec_param(params, name@) {
        None => Err(RpcError::Missing(name)),
        Some(Param::Bool(b)) => Ok(b),
        Some(_) => Ok(false),
    }
}

/// The field pairs of the list items from `i` on, or why one is not a pair.
pub open spec fn spec_pairs(items: Seq<Item>, i: int) -> Result<Seq<(usize, usize)>, RpcError>
    decreases items.len() - i,
{
    if i < 0 || i >= items.len() {
        Ok(Seq::empty())
    } else {
        match items[i] {
            Item::List(Some(from), Some(to)) => match spec_pairs(items, i + 1) {
                Err(e) => Err(e),
                Ok(rest) => Ok(seq![(from as usize, to as usize)] + rest),
            },
            Item::List(_, _) => Err(RpcError::BadMapping),
            _ => Err(RpcError::MappingNotPair),
        }
    }
}

/// The mappings parameter `name`: none where it is not there or not a list.
pub open spec fn spec_mappings(params: Seq<(String, Param)>, name: &'static str) -> Result<Seq<(usize, usize)>, RpcError> {
    match spec_param(params, name@) {
        Some(Param::List(items)) => spec_pairs(items@, 0),
        _ => Ok(Seq::empty()),
    }
}

/// Whether a list item can cross to a plugin as a value.
pub open spec fn item_crosses(item: Item) -> bool {
    !(item is List || item is Object)
}

/// The first item from `i` on that cannot cross to a plugin.
pub open spec fn first_stuck_item(items: Seq<Item>, i: int) -> Option<int>
    decreases items.len() - i,
{
    if i < 0 || i >= items.len() {
        None
    } else if !item_crosses(items[i]) {
        Some(i)
    } else {
        first_stuck_item(items, i + 1)
    }
}

/// The `value` parameter, checked to cross to a plugin.
pub open spec fn spec_value(params: Seq<(String, Param)>) -> Result<(), RpcError> {
    match spec_param(params, "value"@) {
        None => Err(RpcError::Missing("value")),
        Some(Param::List(_)) => Err(RpcError::ValueNotAcrossAbi),
        Some(Param::Object) => Err(RpcError::ValueNotAcrossAbi),
        Some(_) => Ok(()),
    }
}

/// The `payload` parameter, each element checked to cross to a plugin; no
/// list counts as an empty one.
pub open spec fn spec_payload(params: Seq<(String, Param)>) -> Result<(), RpcError> {
    match spec_param(params, "payload"@) {
        Some(Param::List(items)) => match first_stuck_item(items@, 0) {
            None => Ok(()),
            Some(i) => Err(RpcError::PayloadNotAcrossAbi(i as usize)),
        },
        _ => Ok(()),
    }
}

/// What a request of method `method` with `params` asks, the parameters read
/// in turn: the first that fails is the answer.
pub open spec fn spec_rpc_command(method: Seq<char>, params: Seq<(String, Param)>) -> Result<CommandView, RpcError> {
    if method == "describe"@ {
        Ok(CommandView::Describe)
    } else if method == "create_pipeline"@ {
        match spec_str(params, "name") {
            Err(e) => Err(e),
            Ok(name) => Ok(CommandView::CreatePipeline { name }),
        }
    } else if method == "create_plugin"@ {
        match spec_str(params, "library") {
            Err(e) => Err(e),
            Ok(library) => Ok(CommandView::CreatePlugin { library }),
        }
    } else if method == "add_node"@ {
        match (spec_index(params, "pipeline"), spec_str(params, "plugin")) {
            (Err(e), _) => Err(e),
            (Ok(_), Err(e)) => Err(e),
            (Ok(pipeline), Ok(plugin)) => Ok(CommandView::AddNode { pipeline, plugin }),
        }
    } else if method == "connect"@ {
        match (spec_index(params, "pipeline"), spec_index(params, "from"), spec_index(params, "to"), spec_mappings(params, "mappings")) {
            (Err(e), _, _, _) => Err(e),
            (Ok(_), Err(e), _, _) => Err(e),
            (Ok(_), Ok(_), Err(e), _) => Err(e),
            (Ok(_), Ok(_), Ok(_), Err(e)) => Err(e),
            (Ok(pipeline), Ok(from), Ok(to), Ok(mappings)) => Ok(CommandView::Connect { pipeline, from, to, mappings }),
        }
    } else if method == "subscribe"@ || method == "unsubscribe"@ {
        match (spec_str(params, "from"), spec_index(params, "event"), spec_str(params, "to"), spec_index(params, "command")) {
            (Err(e), _, _, _) => Err(e),
            (Ok(_), Err(e), _, _) => Err(e),
            (Ok(_), Ok(_), Err(e), _) => Err(e),
            (Ok(_), Ok(_), Ok(_), Err(e)) => Err(e),
            (Ok(from), Ok(event), Ok(to), Ok(command)) => if method == "unsubscribe"@ {
                Ok(CommandView::Unsubscribe { from, event, to, command })
            } else {
                match spec_mappings(params, "mappings") {
                    Err(e) => Err(e),
                    Ok(mappings) => Ok(CommandView::Subscribe { from, event, to, command, mappings }),
                }
            },
        }
    } else if method == "set_parameter"@ {
        match (spec_value(params), spec_str(params, "plugin"), spec_index(params, "field")) {
            (Err(e), _, _) => Err(e),
            (Ok(_), Err(e), _) => Err(e),
            (Ok(_), Ok(_), Err(e)) => Err(e),
            (Ok(_), Ok(plugin), Ok(field)) => Ok(CommandView::SetParameter { plugin, field }),
        }
    } else if method == "invoke"@ {
        match (spec_payload(params), spec_str(params, "plugin"), spec_index(params, "command")) {
            (Err(e), _, _) => Err(e),
            (Ok(_), Err(e), _) => Err(e),
            (Ok(_), Ok(_), Err(e)) => Err(e),
            (Ok(_), Ok(plugin), Ok(command)) => Ok(CommandView::Invoke { plugin, command }),
        }
    } else if method == "set_node_running"@ {
        match (spec_index(params, "pipeline"), spec_index(params, "node"), spec_flag(params, "running")) {
            (Err(e), _, _) => Err(e),
            (Ok(_), Err(e), _) => Err(e),
            (Ok(_), Ok(_), Err(e)) => Err(e),
            (Ok(pipeline), Ok(node), Ok(running)) => Ok(CommandView::SetNodeRunning { pipeline, node, running }),
        }
    } else if method == "set_node_name"@ {
        match (spec_index(params, "pipeline"), spec_index(params, "node"), spec_str(params, "name")) {
            (Err(e), _, _) => Err(e),
            (Ok(_), Err(e), _) => Err(e),
            (Ok(_), Ok(_), Err(e)) => Err(e),
            (Ok(pipeline), Ok(node), Ok(name)) => Ok(CommandView::SetNodeName { pipeline, node, name }),
        }
    } else if method == "start"@ || method == "stop"@ {
        match spec_index(params, "pipeline") {
            Err(e) => Err(e),
            Ok(pipeline) => if method == "start"@ {
                Ok(CommandView::Start { pipeline })
            } else {
                Ok(CommandView::Stop { pipeline })
            },
        }
    } else {
        Err(RpcError::UnknownMethod)
    }
}

/// Where the parameter named `name` is.
fn find(params: &[(String, Param)], name: &str) -> (r: Option<usize>)
    ensures
        r matches Some(i) ==> spec_find(params@, name@, 0) == Some(i as int) && i < params@.len(),
        r is None ==> spec_find(params@, name@, 0) is None,
{
    let mut i: usize = 0;
    while i < params.len()
        invariant
            i <= params@.len(),
            spec_find(params@, name@, 0) == spec_find(params@, name@, i as int),
        decreases params@.len() - i,
    {
        if same_text(params[i].0.as_str(), name) {
            return Some(i);
        }
        i = i + 1;
    }
    None
}

/// Reads the string parameter `name`.
fn read_str(params: &[(String, Param)], name: &'static str) -> (r: Result<String, RpcError>)
    ensures
        match r {
            Ok(s) => spec_str(params@, name) == Ok::<Seq<char>, RpcError>(s@),
            Err(e) => spec_str(params@, name) == Err::<Seq<char>, RpcError>(e),
        },
{
    match find(params, name) {
        None => Err(RpcError::Missing(name)),
        Some(i) => match &params[i].1 {
            Param::Str(s) => Ok(s.clone()),
            _ => Err(RpcError::NotString(name)),
        },
    }
}

/// Reads the whole-number parameter `name` as an index.
fn read_index(params: &[(String, Param)], name: &'static str) -> (r: Result<usize, RpcError>)
    ensures
        r == spec_index(params@, name),
{
    match find(params, name) {
        None => Err(RpcError::Missing(name)),
        Some(i) => match &params[i].1 {
            Param::Number(Some(v)) => Ok(*v as usize),
            _ => Err(RpcError::NotNumber(name)),
        },
    }
}

/// Reads the flag parameter `name`.
fn read_flag(params: &[(String, Param)], name: &'static str) -> (r: Result<bool, RpcError>)
    ensures
        r == spec_flag(params@, name),
{
    match find(params, name) {
        None => Err(RpcError::Missing(name)),
        Some(i) => match &params[i].1 {
            Param::Bool(b) => Ok(*b),
            _ => Ok(false),
        },
    }
}

/// The field pairs of the mapping items, or why one is not a pair.
fn read_pairs(items: &Vec<Item>) -> (r: Result<Vec<(usize, usize)>, RpcError>)
    ensures
        match r {
            Ok(v) => spec_pairs(items@, 0) == Ok::<Seq<(usize, usize)>, RpcError>(v@),
            Err(e) => spec_pairs(items@, 0) == Err::<Seq<(usize, usize)>, RpcError>(e),
        },
{
    let mut out: Vec<(usize, usize)> = Vec::new();
    let mut i: usize = 0;
    while i < items.len()
        invariant
            i <= items@.len(),
            spec_pairs(items@, 0) == match spec_pairs(items@, i as int) {
                Err(e) => Err(e),
                Ok(rest) => Ok(out@ + rest),
            },
        decreases items@.len() - i,
    {
        match items[i] {
            Item::List(Some(from), Some(to)) => {
                let ghost before = out@;
                out.push((from as usize, to as usize));
                proof {
                    if let Ok(rest) = spec_pairs(items@, i + 1) {
                        assert(before + (seq![(from as usize, to as usize)] + rest) =~= out@ + rest);
                    }
                }
            },
            Item::List(_, _) => {
                return Err(RpcError::BadMapping);
            },
            _ => {
                return Err(RpcError::MappingNotPair);
            },
        }
        i = i + 1;
    }
    proof {
        assert(out@ + Seq::<(usize, usize)>::empty() =~= out@);
    }
    Ok(out)
}

/// Reads the mappings parameter `name`.
fn read_mappings(params: &[(String, Param)], name: &'static str) -> (r: Result<Vec<(usize, usize)>, RpcError>)
    ensures
        match r {
            Ok(v) => spec_mappings(params@, name) == Ok::<Seq<(usize, usize)>, RpcError>(v@),
            Err(e) => spec_mappings(params@, name) == Err::<Seq<(usize, usize)>, RpcError>(e),
        },
{
    match find(params, name) {
        None => Ok(Vec::new()),
        Some(i) => match &params[i].1 {
            Param::List(items) => read_pairs(items),
            _ => Ok(Vec::new()),
        },
    }
}

/// Checks the `value` parameter.
fn check_value(params: &[(String, Param)]) -> (r: Result<(), RpcError>)
    ensures
        r == spec_value(params@),
{
    match find(params, "value") {
        None => Err(RpcError::Missing("value")),
        Some(i) => match &params[i].1 {
            Param::List(_) => Err(RpcError::ValueNotAcrossAbi),
            Param::Object => Err(RpcError::ValueNotAcrossAbi),
            _ => Ok(()),
        },
    }
}

/// Checks the `payload` parameter.
fn check_payload(params: &[(String, Param)]) -> (r: Result<(), RpcError>)
    ensures
        r == spec_payload(params@),
{
    match find(params, "payload") {
        None => Ok(()),
        Some(k) => match &params[k].1 {
            Param::List(items) => {
                let mut i: usize = 0;
                while i < items.len()
                    invariant
                        i <= items@.len(),
                        first_stuck_item(items@, 0) == first_stuck_item(items@, i as int),
                        spec_payload(params@) == match first_stuck_item(items@, 0) {
                            None => Ok(()),
                            Some(j) => Err(RpcError::PayloadNotAcrossAbi(j as usize)),
                        },
                    decreases items@.len() - i,
                {
                    match items[i] {
                        Item::List(_, _) => {
                            return Err(RpcError::PayloadNotAcrossAbi(i));
                        },
                        Item::Object => {
                            return Err(RpcError::PayloadNotAcrossAbi(i));
                        },
                        _ => {},
                    }
                    i = i + 1;
                }
                Ok(())
            },
            _ => Ok(()),
        },
    }
}

/// Reads a control request: the method named, and the parameters it needs
/// in the order the engine reads them. The first that is missing or of the
/// wrong kind is the answer; an unknown method is refused.
pub fn rpc_command(method: &str, params: &[(String, Param)]) -> (r: Result<Command, RpcError>)
    ensures
        match r {
            Ok(c) => spec_rpc_command(method@, params@) == Ok::<CommandView, RpcError>(c@),
            Err(e) => spec_rpc_command(method@, params@) == Err::<CommandView, RpcError>(e),
        },
{
    if same_text(method, "describe") {
        Ok(Command::Describe)
    } else if same_text(method, "create_pipeline") {
        let name = read_str(params, "name")?;
        Ok(Command::CreatePipeline { name })
    } else if same_text(method, "create_plugin") {
        let library = read_str(params, "library")?;
        Ok(Command::CreatePlugin { library })
    } else if same_text(method, "add_node") {
        let pipeline = read_index(params, "pipeline")?;
        let plugin = read_str(params, "plugin")?;
        Ok(Command::AddNode { pipeline, plugin })
    } else if same_text(method, "connect") {
        let pipeline = read_index(params, "pipeline")?;
        let from = read_index(params, "from")?;
        let to = read_index(params, "to")?;
        let mappings = read_mappings(params, "mappings")?;
        Ok(Command::Connect { pipeline, from, to, mappings })
    } else if same_text(method, "subscribe") || same_text(method, "unsubscribe") {
        let from = read_str(params, "from")?;
        let event = read_index(params, "event")?;
        let to = read_str(params, "to")?;
        let command = read_index(params, "command")?;
        if same_text(method, "unsubscribe") {
            Ok(Command::Unsubscribe { from, event, to, command })
        } else {
            let mappings = read_mappings(params, "mappings")?;
            Ok(Command::Subscribe { from, event, to, command, mappings })
        }
    } else if same_text(method, "set_parameter") {
        check_value(params)?;
        let plugin = read_str(params, "plugin")?;
        let field = read_index(params, "field")?;
        Ok(Command::SetParameter { plugin, field })
    } else if same_text(method, "invoke") {
        check_payload(params)?;
        let plugin = read_str(params, "plugin")?;
        let command = read_index(params, "command")?;
        Ok(Command::Invoke { plugin, command })
    } else if same_text(method, "set_node_running") {
        let pipeline = read_index(params, "pipeline")?;
        let node = read_index(params, "node")?;
        let running = read_flag(params, "running")?;
        Ok(Command::SetNodeRunning { pipeline, node, running })
    } else if same_text(method, "set_node_name") {
        let pipeline = read_index(params, "pipeline")?;
        let node = read_index(params, "node")?;
        let name = read_str(params, "name")?;
        Ok(Command::SetNodeName { pipeline, node, name })
    } else if same_text(method, "start") || same_text(method, "stop") {
        let pipeline = read_index(params, "pipeline")?;
        if same_text(method, "start") {
            Ok(Command::Start { pipeline })
        } else {
            Ok(Command::Stop { pipeline })
        }
    } else {
        Err(RpcError::UnknownMethod)
    }
}

/// Every field of a command is the request parameter of its name: the
/// plugin named `from` raises the event and the one named `to` gets the
/// command, each index is the number of its name, and each command comes
/// from the method of its name.
pub proof fn law_command_fields_come_from_their_parameters(method: Seq<char>, params: Seq<(String, Param)>)
    ensures
        spec_rpc_command(method, params) matches Ok(c) ==> match c {
            CommandView::Describe => method == "describe"@,
            CommandView::CreatePipeline { name } => method == "create_pipeline"@ && spec_str(params, "name")
                == Ok::<Seq<char>, RpcError>(name),
            CommandView::CreatePlugin { library } => method == "create_plugin"@ && spec_str(params, "library")
                == Ok::<Seq<char>, RpcError>(library),
            CommandView::AddNode { pipeline, plugin } => {
                &&& method == "add_node"@
                &&& spec_index(params, "pipeline") == Ok::<usize, RpcError>(pipeline)
                &&& spec_str(params, "plugin") == Ok::<Seq<char>, RpcError>(plugin)
            },
            CommandView::Connect { pipeline, from, to, mappings } => {
                &&& method == "connect"@
                &&& spec_index(params, "pipeline") == Ok::<usize, RpcError>(pipeline)
                &&& spec_index(params, "from") == Ok::<usize, RpcError>(from)
                &&& spec_index(params, "to") == Ok::<usize, RpcError>(to)
                &&& spec_mappings(params, "mappings") == Ok::<Seq<(usize, usize)>, RpcError>(mappings)
            },
            CommandView::Subscribe { from, event, to, command, mappings } => {
                &&& method == "subscribe"@
                &&& spec_str(params, "from") == Ok::<Seq<char>, RpcError>(from)
                &&& spec_index(params, "event") == Ok::<usize, RpcError>(event)
                &&& spec_str(params, "to") == Ok::<Seq<char>, RpcError>(to)
                &&& spec_index(params, "command") == Ok::<usize, RpcError>(command)
                &&& spec_mappings(params, "mappings") == Ok::<Seq<(usize, usize)>, RpcError>(mappings)
            },
            CommandView::Unsubscribe { from, event, to, command } => {
                &&& method == "unsubscribe"@
                &&& spec_str(params, "from") == Ok::<Seq<char>, RpcError>(from)
                &&& spec_index(params, "event") == Ok::<usize, RpcError>(event)
                &&& spec_str(params, "to") == Ok::<Seq<char>, RpcError>(to)
                &&& spec_index(params, "command") == Ok::<usize, RpcError>(command)
            },
            CommandView::SetParameter { plugin, field } => {
                &&& method == "set_parameter"@
                &&& spec_value(params) == Ok::<(), RpcError>(())
                &&& spec_str(params, "plugin") == Ok::<Seq<char>, RpcError>(plugin)
                &&& spec_index(params, "field") == Ok::<usize, RpcError>(field)
            },
            CommandView::Invoke { plugin, command } => {
                &&& method == "invoke"@
                &&& spec_payload(params) == Ok::<(), RpcError>(())
                &&& spec_str(params, "plugin") == Ok::<Seq<char>, RpcError>(plugin)
                &&& spec_index(params, "command") == Ok::<usize, RpcError>(command)
            },
            CommandView::SetNodeRunning { pipeline, node, running } => {
                &&& method == "set_node_running"@
                &&& spec_index(params, "pipeline") == Ok::<usize, RpcError>(pipeline)
                &&& spec_index(params, "node") == Ok::<usize, RpcError>(node)
                &&& spec_flag(params, "running") == Ok::<bool, RpcError>(running)
            },
            CommandView::SetNodeName { pipeline, node, name } => {
                &&& method == "set_node_name"@
                &&& spec_index(params, "pipeline") == Ok::<usize, RpcError>(pipeline)
                &&& spec_index(params, "node") == Ok::<usize, RpcError>(node)
                &&& spec_str(params, "name") == Ok::<Seq<char>, RpcError>(name)
            },
            CommandView::Start { pipeline } => method == "start"@ && spec_index(params, "pipeline") == Ok::<
                usize,
                RpcError,
            >(pipeline),
            CommandView::Stop { pipeline } => method == "stop"@ && spec_index(params, "pipeline") == Ok::<
                usize,
                RpcError,
            >(pipeline),
        },
{
}

/// A subscription whose parameters all read is made: from the plugin named
/// `from`, for its event `event`, to the plugin named `to`, for its command
/// `command`, with the mappings given.
pub proof fn law_subscribe_reads_its_parameters(params: Seq<(String, Param)>)
    requires
        spec_str(params, "from") is Ok,
        spec_index(params, "event") is Ok,
        spec_str(params, "to") is Ok,
        spec_index(params, "command") is Ok,
        spec_mappings(params, "mappings") is Ok,
    ensures
        spec_rpc_command("subscribe"@, params) == Ok::<CommandView, RpcError>(CommandView::Subscribe {
            from: spec_str(params, "from")->Ok_0,
            event: spec_index(params, "event")->Ok_0,
            to: spec_str(params, "to")->Ok_0,
            command: spec_index(params, "command")->Ok_0,
            mappings: spec_mappings(params, "mappings")->Ok_0,
        }),
{
    reveal_strlit("subscribe");
    reveal_strlit("unsubscribe");
    reveal_strlit("describe");
    reveal_strlit("create_pipeline");
    reveal_strlit("create_plugin");
    reveal_strlit("add_node");
    reveal_strlit("connect");
    assert("subscribe"@[0] != "describe"@[0]);
    assert("subscribe"@ != "describe"@);
    assert("subscribe"@[0] != "create_pipeline"@[0]);
    assert("subscribe"@ != "create_pipeline"@);
    assert("subscribe"@ != "create_plugin"@);
    assert("subscribe"@ != "add_node"@);
    assert("subscribe"@ != "connect"@);
    assert("subscribe"@ != "unsubscribe"@);
}

} // verus!
