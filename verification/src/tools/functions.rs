//! Looking at functions and their calls.

use vstd::hash_map::StringHashMap;
use vstd::prelude::*;
use vstd::string::*;
use vstd::utf8::is_ascii_chars;

use crate::api_types::{clone_text, CallTreeNodeDto, FunctionCallEntry, FunctionCallOccurrence, FunctionCallsResult};
use crate::engine::page_of;
use crate::requests::AnalyzeFunctionRequest;
use crate::scan::{first_of, lemma_filter_ends, lemma_filter_step};
use crate::text::{ascii_lowered, contains_text, decimal, decimal_text, law_a_text_holds_its_pieces, lowercase, numeral, str_contains};
use crate::tools::browse::{min_of, min_u32};

verus! {

/// How many calls of a function are shown at most.
pub const MAX_OCCURRENCES: usize = 50;

/// How many functions are listed at most.
pub const MAX_FUNCTIONS: u32 = 100;

/// What a request about functions wants.
pub enum FunctionQuery {
    /// One call in detail.
    Node(u32),
    /// The functions whose names hold this text.
    Name(String),
    /// All functions, a page at a time.
    List,
}

/// Reads what a request about functions wants. A node goes before a name.
pub fn function_query(req: &AnalyzeFunctionRequest) -> (r: FunctionQuery)
    ensures
        r == match req.node_id {
            Some(id) => FunctionQuery::Node(id),
            None => match req.func_name {
                Some(name) => FunctionQuery::Name(name),
                None => FunctionQuery::List,
            },
        },
{
    match req.node_id {
        Some(id) => FunctionQuery::Node(id),
        None => match &req.func_name {
            Some(name) => FunctionQuery::Name(name.clone()),
            None => FunctionQuery::List,
        },
    }
}

/// The registers at a line and their values.
pub struct Registers {
    values: StringHashMap<String>,
}

impl View for Registers {
    type V = Map<Seq<char>, String>;

    closed spec fn view(&self) -> Map<Seq<char>, String> {
        self.values@
    }
}

impl Registers {
    /// No register has a value.
    pub fn new() -> (r: Registers)
        ensures
            r@ == Map::<Seq<char>, String>::empty(),
    {
        Registers { values: StringHashMap::new() }
    }

    /// Gives a register a value, in place of the one it had.
    pub fn set(&mut self, name: String, value: String)
        ensures
            final(self)@ == old(self)@.insert(name@, value),
    {
        self.values.insert(name, value);
    }

    /// The value of a register.
    pub fn get(&self, name: &str) -> (r: Option<String>)
        ensures
            r == register(self@, name@),
    {
        match self.values.get(name) {
            Some(value) => Some(value.clone()),
            None => None,
        }
    }
}

/// The value of a register, if it has one.
pub open spec fn register(regs: Map<Seq<char>, String>, name: Seq<char>) -> Option<String> {
    if regs.contains_key(name) {
        Some(regs[name])
    } else {
        None
    }
}

/// The name of the `i`-th argument register.
pub open spec fn argument_register(i: int) -> Seq<char> {
    "X"@ + decimal(i as nat)
}

/// The first `n` argument registers that have a value, in order, each with its value.
pub open spec fn arguments(regs: Map<Seq<char>, String>, n: nat) -> Seq<(Seq<char>, String)>
    decreases n,
{
    if n == 0 {
        Seq::empty()
    } else {
        let before = arguments(regs, (n - 1) as nat);
        match register(regs, argument_register(n - 1)) {
            Some(v) => before.push((argument_register(n - 1), v)),
            None => before,
        }
    }
}

/// Registers and their values, the names taken by their characters.
pub open spec fn named(args: Seq<(String, String)>) -> Seq<(Seq<char>, String)> {
    Seq::new(args.len(), |i: int| (args[i].0@, args[i].1))
}

/// Reads the arguments of a call, `X0` to `X7`, out of the registers at its entry.
pub fn read_arguments(regs: &Registers) -> (r: Vec<(String, String)>)
    ensures
        named(r@) == arguments(regs@, 8),
{
    let mut r: Vec<(String, String)> = Vec::new();
    let mut i: u32 = 0;
    assert(named(r@) =~= arguments(regs@, 0));
    while i < 8
        invariant
            i <= 8,
            named(r@) == arguments(regs@, i as nat),
        decreases 8 - i,
    {
        let mut name = "X".to_owned();
        name.append(decimal_text(i as u64).as_str());
        let ghost before = r@;
        if let Some(v) = regs.get(name.as_str()) {
            r.push((name, v));
            assert(named(r@) =~= named(before).push((argument_register(i as int), v)));
        }
        i = i + 1;
    }
    r
}

/// A call made by another.
pub struct SubCall {
    pub node_id: u32,
    pub func_name: Option<String>,
    pub func_addr: String,
    pub entry_seq: u32,
    pub exit_seq: u32,
    pub line_count: u32,
}

/// What is shown of a call made by another.
pub open spec fn sub_call(node: CallTreeNodeDto) -> SubCall {
    SubCall {
        node_id: node.id,
        func_name: node.func_name,
        func_addr: node.func_addr,
        entry_seq: node.entry_seq,
        exit_seq: node.exit_seq,
        line_count: node.line_count,
    }
}

/// The calls that the first of `nodes` makes: the others.
pub open spec fn sub_calls(nodes: Seq<CallTreeNodeDto>) -> Seq<SubCall> {
    Seq::new((nodes.len() - 1) as nat, |i: int| sub_call(nodes[i + 1]))
}

fn show_sub_calls(nodes: &Vec<CallTreeNodeDto>) -> (r: Vec<SubCall>)
    requires
        nodes@.len() > 0,
    ensures
        r@ == sub_calls(nodes@),
{
    let mut r: Vec<SubCall> = Vec::new();
    let mut i: usize = 1;
    while i < nodes.len()
        invariant
            1 <= i <= nodes@.len(),
            r@ == sub_calls(nodes@.take(i as int)),
        decreases nodes@.len() - i,
    {
        let node = &nodes[i];
        r.push(
            SubCall {
                node_id: node.id,
                func_name: clone_text(&node.func_name),
                func_addr: node.func_addr.clone(),
                entry_seq: node.entry_seq,
                exit_seq: node.exit_seq,
                line_count: node.line_count,
            },
        );
        assert(r@ =~= sub_calls(nodes@.take(i + 1)));
        i = i + 1;
    }
    assert(nodes@.take(nodes@.len() as int) =~= nodes@);
    r
}

/// What is said where the tree of calls has no such node.
pub open spec fn no_such_node(node_id: u32) -> Seq<char> {
    "Node "@ + decimal(node_id as nat) + " not found"@
}

fn node_not_found(node_id: u32) -> (r: String)
    ensures
        r@ == no_such_node(node_id),
{
    let mut m = "Node ".to_owned();
    m.append(decimal_text(node_id as u64).as_str());
    m.append(" not found");
    m
}

/// At which lines the registers of a call are read.
pub struct CallLines {
    /// Where the call is entered.
    pub entry: u32,
    /// Where it is left, if the trace shows that.
    pub exit: Option<u32>,
}

/// Says at which lines the registers of a call are read. `nodes` is what the engine gave for the
/// node.
pub fn call_lines(node_id: u32, nodes: &Vec<CallTreeNodeDto>) -> (r: Result<CallLines, String>)
    ensures
        if nodes@.len() == 0 {
            r matches Err(e) && e@ == no_such_node(node_id)
        } else {
            r == Ok::<CallLines, String>(
                CallLines {
                    entry: nodes@[0].entry_seq,
                    exit: if nodes@[0].exit_seq > nodes@[0].entry_seq {
                        Some(nodes@[0].exit_seq)
                    } else {
                        None
                    },
                },
            )
        },
{
    if nodes.len() == 0 {
        return Err(node_not_found(node_id));
    }
    let node = &nodes[0];
    Ok(
        CallLines {
            entry: node.entry_seq,
            exit: if node.exit_seq > node.entry_seq {
                Some(node.exit_seq)
            } else {
                None
            },
        },
    )
}

/// One call in detail.
pub struct FunctionDetail {
    pub node_id: u32,
    pub func_name: Option<String>,
    pub func_addr: String,
    pub entry_seq: u32,
    pub exit_seq: u32,
    pub line_count: u32,
    pub args: Vec<(String, String)>,
    pub return_value: Option<String>,
    pub sub_calls: Vec<SubCall>,
    pub sub_call_count: usize,
}

/// The value that a call gave back: `X0` where it is left, if the trace shows that and the
/// registers there could be read.
pub open spec fn returned(node: CallTreeNodeDto, exit_regs: Option<Registers>) -> Option<
    String,
> {
    match exit_regs {
        Some(regs) => if node.exit_seq > node.entry_seq {
            register(regs@, "X0"@)
        } else {
            None
        },
        None => None,
    }
}

/// Shows one call in detail. `nodes` is what the engine gave for the node, `entry_regs` the
/// registers where the call is entered, `exit_regs` those where it is left, if they could be read.
pub fn function_detail(
    node_id: u32,
    nodes: &Vec<CallTreeNodeDto>,
    entry_regs: &Registers,
    exit_regs: &Option<Registers>,
) -> (r: Result<FunctionDetail, String>)
    ensures
        if nodes@.len() == 0 {
            r matches Err(e) && e@ == no_such_node(node_id)
        } else {
            &&& r matches Ok(d)
            &&& d.node_id == nodes@[0].id
            &&& d.func_name == nodes@[0].func_name
            &&& d.func_addr == nodes@[0].func_addr
            &&& d.entry_seq == nodes@[0].entry_seq
            &&& d.exit_seq == nodes@[0].exit_seq
            &&& d.line_count == nodes@[0].line_count
            &&& named(d.args@) == arguments(entry_regs@, 8)
            &&& d.return_value == returned(nodes@[0], *exit_regs)
            &&& d.sub_calls@ == sub_calls(nodes@)
            &&& d.sub_call_count == nodes@.len() - 1
        },
{
    if nodes.len() == 0 {
        return Err(node_not_found(node_id));
    }
    let node = &nodes[0];
    let return_value: Option<String> = match exit_regs {
        Some(regs) => if node.exit_seq > node.entry_seq {
            regs.get("X0")
        } else {
            None
        },
        None => None,
    };
    let sub_calls = show_sub_calls(nodes);
    Ok(
        FunctionDetail {
            node_id: node.id,
            func_name: clone_text(&node.func_name),
            func_addr: node.func_addr.clone(),
            entry_seq: node.entry_seq,
            exit_seq: node.exit_seq,
            line_count: node.line_count,
            args: read_arguments(entry_regs),
            return_value,
            sub_call_count: sub_calls.len(),
            sub_calls,
        },
    )
}

/// The name of the function holds the text, letter case set aside.
pub open spec fn name_holds(f: FunctionCallEntry, query: Seq<char>) -> bool {
    contains_text(lowercase(f.func_name@), lowercase(query))
}

/// The lower case of an ASCII text is the text with its capitals made small.
pub open spec fn lowers_as_ascii(s: Seq<char>) -> bool {
    is_ascii_chars(s) ==> lowercase(s) == ascii_lowered(s)
}

/// A function that was found by its name.
pub struct MatchedFunction {
    pub func_name: String,
    pub call_count: usize,
    pub is_jni: bool,
    pub occurrences: Vec<FunctionCallOccurrence>,
    pub occurrences_truncated: bool,
}

/// What is shown of a function that was found by its name.
#[verifier::ext_equal]
pub struct MatchedView {
    pub func_name: String,
    pub call_count: nat,
    pub is_jni: bool,
    pub occurrences: Seq<FunctionCallOccurrence>,
    pub occurrences_truncated: bool,
}

impl View for MatchedFunction {
    type V = MatchedView;

    open spec fn view(&self) -> MatchedView {
        MatchedView {
            func_name: self.func_name,
            call_count: self.call_count as nat,
            is_jni: self.is_jni,
            occurrences: self.occurrences@,
            occurrences_truncated: self.occurrences_truncated,
        }
    }
}

/// A function with its first calls.
pub open spec fn with_first_calls(f: FunctionCallEntry) -> MatchedView {
    MatchedView {
        func_name: f.func_name,
        call_count: f.occurrences@.len(),
        is_jni: f.is_jni,
        occurrences: first_of(f.occurrences@, MAX_OCCURRENCES as int),
        occurrences_truncated: f.occurrences@.len() > MAX_OCCURRENCES,
    }
}

fn show_first_calls(f: FunctionCallEntry) -> (r: MatchedFunction)
    ensures
        r@ == with_first_calls(f),
{
    let mut occurrences = f.occurrences;
    let call_count: usize = occurrences.len();
    if call_count > MAX_OCCURRENCES {
        occurrences.truncate(MAX_OCCURRENCES);
    }
    MatchedFunction {
        func_name: f.func_name,
        call_count,
        is_jni: f.is_jni,
        occurrences,
        occurrences_truncated: call_count > MAX_OCCURRENCES,
    }
}

/// What is shown of each function.
pub open spec fn matched_views(fs: Seq<MatchedFunction>) -> Seq<MatchedView> {
    Seq::new(fs.len(), |i: int| fs[i]@)
}

/// The functions whose names hold the text, each with its first calls.
pub open spec fn functions_named(fs: Seq<FunctionCallEntry>, query: Seq<char>) -> Seq<MatchedView> {
    fs.filter(|f: FunctionCallEntry| name_holds(f, query)).map_values(
        |f: FunctionCallEntry| with_first_calls(f),
    )
}

/// The functions found by a name.
pub struct FunctionMatches {
    pub query: String,
    pub matched_functions: usize,
    pub functions: Vec<MatchedFunction>,
    pub hint: String,
}

/// Finds the functions whose names hold a text, letter case set aside.
pub fn find_functions(query: &str, result: FunctionCallsResult) -> (r: FunctionMatches)
    ensures
        r.query@ == query@,
        matched_views(r.functions@) == functions_named(result.functions@, query@),
        r.matched_functions == r.functions@.len(),
        r.hint@ == if r.functions@.len() == 0 {
            "No functions matched. Try a broader search term or use analyze_function with no arguments to list all functions."@
        } else {
            "Use analyze_function with node_id from get_call_tree to inspect a specific call's arguments and return value."@
        },
        lowers_as_ascii(query@),
        forall|i: int|
            0 <= i < result.functions@.len() ==> lowers_as_ascii(
                (#[trigger] result.functions@[i]).func_name@,
            ),
{
    let lowered = query.to_lowercase();
    let ghost all = result.functions@;
    let ghost keep = |f: FunctionCallEntry| name_holds(f, query@);
    let ghost show = |f: FunctionCallEntry| with_first_calls(f);
    let mut functions: Vec<MatchedFunction> = Vec::new();
    proof {
        lemma_filter_ends(all, keep);
    }
    assert(matched_views(functions@) =~= all.take(0).filter(keep).map_values(show));
    for f in it: result.functions.into_iter()
        invariant
            it.seq() == all,
            keep == (|f: FunctionCallEntry| name_holds(f, query@)),
            show == (|f: FunctionCallEntry| with_first_calls(f)),
            lowered@ == lowercase(query@),
            matched_views(functions@) == all.take(it.index() as int).filter(keep).map_values(show),
            forall|i: int|
                0 <= i < it.index() ==> lowers_as_ascii((#[trigger] all[i]).func_name@),
    {
        let ghost before = functions@;
        let ghost kept = all.take(it.index() as int).filter(keep);
        proof {
            lemma_filter_step(all, keep, it.index() as int);
        }
        let name = f.func_name.as_str().to_lowercase();
        assert(lowers_as_ascii(f.func_name@));
        if str_contains(name.as_str(), lowered.as_str()) {
            functions.push(show_first_calls(f));
            assert(matched_views(functions@) =~= matched_views(before).push(with_first_calls(f)));
            assert(kept.push(f).map_values(show) =~= kept.map_values(show).push(show(f)));
        }
    }
    let n: usize = functions.len();
    FunctionMatches {
        query: query.to_owned(),
        matched_functions: n,
        functions,
        hint: if n == 0 {
            "No functions matched. Try a broader search term or use analyze_function with no arguments to list all functions.".to_owned()
        } else {
            "Use analyze_function with node_id from get_call_tree to inspect a specific call's arguments and return value.".to_owned()
        },
    }
}

/// A function in a list.
pub struct ListedFunction {
    pub func_name: String,
    pub call_count: usize,
    pub is_jni: bool,
}

/// The function is shown in a list as this.
pub open spec fn listed_as(f: FunctionCallEntry, l: ListedFunction) -> bool {
    &&& l.func_name == f.func_name
    &&& l.call_count == f.occurrences@.len()
    &&& l.is_jni == f.is_jni
}

/// A page of the list of all functions.
pub struct FunctionList {
    pub functions: Vec<ListedFunction>,
    pub total: usize,
    pub total_calls: usize,
    pub offset: u32,
    pub has_more: bool,
    pub hint: String,
}

/// The functions on the page that a request asks for, 100 at most.
pub open spec fn function_page(
    fs: Seq<FunctionCallEntry>,
    req: AnalyzeFunctionRequest,
) -> Seq<FunctionCallEntry> {
    page_of(fs, req.offset as int, min_of(req.limit as int, MAX_FUNCTIONS as int))
}

/// Lists the functions, a page at a time.
pub fn list_functions(req: &AnalyzeFunctionRequest, result: &FunctionCallsResult) -> (r: FunctionList)
    ensures
        ({
            let page = function_page(result.functions@, *req);
            &&& r.functions@.len() == page.len()
            &&& forall|i: int|
                #![trigger r.functions@[i]]
                #![trigger page[i]]
                0 <= i < page.len() ==> listed_as(page[i], r.functions@[i])
            &&& r.has_more == (req.offset + page.len() < result.functions@.len())
        }),
        r.total == result.functions@.len(),
        r.total_calls == result.total_calls,
        r.offset == req.offset,
        r.hint@
            == "Use analyze_function with func_name to search, or node_id for detailed analysis with entry arguments."@,
{
    let limit: usize = min_u32(req.limit, MAX_FUNCTIONS) as usize;
    let total: usize = result.functions.len();
    let start: usize = if (req.offset as usize) < total {
        req.offset as usize
    } else {
        total
    };
    let end: usize = if limit < total - start {
        start + limit
    } else {
        total
    };
    let ghost page = function_page(result.functions@, *req);
    assert(page =~= result.functions@.subrange(start as int, end as int));
    let mut functions: Vec<ListedFunction> = Vec::new();
    let mut i: usize = start;
    while i < end
        invariant
            start <= i <= end <= result.functions@.len(),
            page == result.functions@.subrange(start as int, end as int),
            functions@.len() == i - start,
            forall|k: int|
                0 <= k < functions@.len() ==> listed_as(page[k], #[trigger] functions@[k]),
        decreases end - i,
    {
        let f = &result.functions[i];
        assert(page[i - start] == *f);
        functions.push(
            ListedFunction {
                func_name: f.func_name.clone(),
                call_count: f.occurrences.len(),
                is_jni: f.is_jni,
            },
        );
        i = i + 1;
    }
    FunctionList {
        functions,
        total,
        total_calls: result.total_calls,
        offset: req.offset,
        has_more: (req.offset as usize) < total && end - start < total - req.offset as usize,
        hint: "Use analyze_function with func_name to search, or node_id for detailed analysis with entry arguments.".to_owned(),
    }
}

/// The arguments of a call are values of `X0` to `X7`, each register once and in this order, and
/// a register that has a value is among them.
pub proof fn law_arguments_are_the_first_registers(regs: Map<Seq<char>, String>, n: nat)
    ensures
        arguments(regs, n).len() <= n,
        forall|k: int|
            0 <= k < arguments(regs, n).len() ==> exists|i: int|
                k <= i < n && (#[trigger] arguments(regs, n)[k]).0 == #[trigger] argument_register(
                    i,
                ) && register(regs, argument_register(i)) == Some(arguments(regs, n)[k].1),
        forall|i: int|
            0 <= i < n ==> (register(regs, #[trigger] argument_register(i)) matches Some(v)
                ==> arguments(regs, n).contains((argument_register(i), v))),
    decreases n,
{
    if n > 0 {
        let m = (n - 1) as nat;
        law_arguments_are_the_first_registers(regs, m);
        let (before, after) = (arguments(regs, m), arguments(regs, n));
        assert forall|k: int| 0 <= k < after.len() implies exists|i: int|
            k <= i < n && (#[trigger] after[k]).0 == #[trigger] argument_register(i) && register(
                regs,
                argument_register(i),
            ) == Some(after[k].1) by {
            if k < before.len() {
                let i = choose|i: int|
                    k <= i < m && (#[trigger] before[k]).0 == #[trigger] argument_register(i)
                        && register(regs, argument_register(i)) == Some(before[k].1);
                assert(after[k] == before[k]);
                assert(after[k].0 == argument_register(i));
            } else {
                assert(after[k].0 == argument_register(n - 1));
            }
        }
        assert forall|i: int| 0 <= i < n implies (register(
            regs,
            #[trigger] argument_register(i),
        ) matches Some(v) ==> after.contains((argument_register(i), v))) by {
            if let Some(v) = register(regs, argument_register(i)) {
                if i < m {
                    let k = choose|k: int|
                        0 <= k < before.len() && before[k] == (argument_register(i), v);
                    assert(after[k] == before[k]);
                } else {
                    assert(after.last() == (argument_register(i), v));
                }
            }
        }
    }
}

/// Two texts with the same lower case find the same functions; so do two ASCII texts that differ
/// in the case of letters only.
pub proof fn law_name_search_ignores_case(
    fs: Seq<FunctionCallEntry>,
    a: Seq<char>,
    b: Seq<char>,
)
    ensures
        lowercase(a) == lowercase(b) ==> functions_named(fs, a) == functions_named(fs, b),
        lowers_as_ascii(a) && lowers_as_ascii(b) && is_ascii_chars(a) && is_ascii_chars(b)
            && ascii_lowered(a) == ascii_lowered(b) ==> functions_named(fs, a) == functions_named(
            fs,
            b,
        ),
{
    if lowercase(a) == lowercase(b) {
        assert((|f: FunctionCallEntry| name_holds(f, a)) =~= (|f: FunctionCallEntry|
            name_holds(f, b)));
    }
}

/// A register as it is listed among the arguments: not at all where it has no value.
pub open spec fn listed_register(regs: Map<Seq<char>, String>, name: Seq<char>) -> Seq<
    (Seq<char>, String),
> {
    if regs.contains_key(name) {
        seq![(name, regs[name])]
    } else {
        Seq::empty()
    }
}

proof fn lemma_argument_names()
    ensures
        argument_register(0) == seq!['X', '0'],
        argument_register(1) == seq!['X', '1'],
        argument_register(2) == seq!['X', '2'],
        argument_register(3) == seq!['X', '3'],
        argument_register(4) == seq!['X', '4'],
        argument_register(5) == seq!['X', '5'],
        argument_register(6) == seq!['X', '6'],
        argument_register(7) == seq!['X', '7'],
{
    reveal_strlit("X");
    assert("X"@ =~= seq!['X']);
    assert(argument_register(0) =~= seq!['X', '0']);
    assert(argument_register(1) =~= seq!['X', '1']);
    assert(argument_register(2) =~= seq!['X', '2']);
    assert(argument_register(3) =~= seq!['X', '3']);
    assert(argument_register(4) =~= seq!['X', '4']);
    assert(argument_register(5) =~= seq!['X', '5']);
    assert(argument_register(6) =~= seq!['X', '6']);
    assert(argument_register(7) =~= seq!['X', '7']);
}

/// The arguments of a call are the registers with the names `X0`, `X1`, `X2`, `X3`, `X4`, `X5`,
/// `X6` and `X7`, in this order, as far as they have a value, each with its value; and nothing
/// else.
pub proof fn law_arguments_have_eight_names(regs: Map<Seq<char>, String>)
    ensures
        arguments(regs, 8) == listed_register(regs, seq!['X', '0']) + listed_register(
            regs,
            seq!['X', '1'],
        ) + listed_register(regs, seq!['X', '2']) + listed_register(regs, seq!['X', '3'])
            + listed_register(regs, seq!['X', '4']) + listed_register(regs, seq!['X', '5'])
            + listed_register(regs, seq!['X', '6']) + listed_register(regs, seq!['X', '7']),
{
    lemma_argument_names();
    assert(arguments(regs, 0) =~= Seq::empty());
    assert(arguments(regs, 1) =~= arguments(regs, 0) + listed_register(regs, seq!['X', '0']));
    assert(arguments(regs, 2) =~= arguments(regs, 1) + listed_register(regs, seq!['X', '1']));
    assert(arguments(regs, 3) =~= arguments(regs, 2) + listed_register(regs, seq!['X', '2']));
    assert(arguments(regs, 4) =~= arguments(regs, 3) + listed_register(regs, seq!['X', '3']));
    assert(arguments(regs, 5) =~= arguments(regs, 4) + listed_register(regs, seq!['X', '4']));
    assert(arguments(regs, 6) =~= arguments(regs, 5) + listed_register(regs, seq!['X', '5']));
    assert(arguments(regs, 7) =~= arguments(regs, 6) + listed_register(regs, seq!['X', '6']));
    assert(arguments(regs, 8) =~= arguments(regs, 7) + listed_register(regs, seq!['X', '7']));
    assert(arguments(regs, 1) =~= listed_register(regs, seq!['X', '0']));
}

/// An argument is a register with one of eight names and the value that the register has; and each
/// of these registers that has a value is an argument.
pub proof fn law_arguments_are_registers(
    regs: Map<Seq<char>, String>,
    name: Seq<char>,
    value: String,
)
    ensures
        arguments(regs, 8).contains((name, value)) <==> {
            &&& name == seq!['X', '0'] || name == seq!['X', '1'] || name == seq!['X', '2'] || name
                == seq!['X', '3'] || name == seq!['X', '4'] || name == seq!['X', '5'] || name
                == seq!['X', '6'] || name == seq!['X', '7']
            &&& regs.contains_key(name)
            &&& regs[name] == value
        },
{
    lemma_argument_names();
    law_arguments_are_the_first_registers(regs, 8);
    let args = arguments(regs, 8);
    if args.contains((name, value)) {
        let k = choose|k: int| 0 <= k < args.len() && args[k] == (name, value);
        assert(args[k].0 == name);
        let i = choose|i: int|
            k <= i < 8 && args[k].0 == #[trigger] argument_register(i) && register(
                regs,
                argument_register(i),
            ) == Some(args[k].1);
        assert(i == 0 || i == 1 || i == 2 || i == 3 || i == 4 || i == 5 || i == 6 || i == 7);
    }
}

/// Registers and functions are taken as they are: a name by its characters, a value as it is, a
/// function by its fields.
pub proof fn law_functions_are_taken_as_they_are(
    args: Seq<(String, String)>,
    i: int,
    fs: Seq<MatchedFunction>,
    j: int,
    regs: Map<Seq<char>, String>,
    name: Seq<char>,
)
    requires
        0 <= i < args.len(),
        0 <= j < fs.len(),
    ensures
        named(args).len() == args.len(),
        named(args)[i].0 == args[i].0@,
        named(args)[i].1 == args[i].1,
        matched_views(fs).len() == fs.len(),
        matched_views(fs)[j].func_name == fs[j].func_name,
        matched_views(fs)[j].call_count == fs[j].call_count,
        matched_views(fs)[j].is_jni == fs[j].is_jni,
        matched_views(fs)[j].occurrences == fs[j].occurrences@,
        matched_views(fs)[j].occurrences_truncated == fs[j].occurrences_truncated,
        register(regs, name) is Some <==> regs.contains_key(name),
        regs.contains_key(name) ==> register(regs, name) == Some(regs[name]),
{
}

/// The calls that a call makes are all the nodes behind the first, in order, each with its own
/// number, name, address, lines and length.
pub proof fn law_every_call_is_shown(nodes: Seq<CallTreeNodeDto>, i: int)
    requires
        0 < i < nodes.len(),
    ensures
        sub_calls(nodes).len() == nodes.len() - 1,
        sub_calls(nodes)[i - 1].node_id == nodes[i].id,
        sub_calls(nodes)[i - 1].func_name == nodes[i].func_name,
        sub_calls(nodes)[i - 1].func_addr == nodes[i].func_addr,
        sub_calls(nodes)[i - 1].entry_seq == nodes[i].entry_seq,
        sub_calls(nodes)[i - 1].exit_seq == nodes[i].exit_seq,
        sub_calls(nodes)[i - 1].line_count == nodes[i].line_count,
{
}

/// A call gives back the value that the register `X0` has where the call is left. Nothing is shown
/// where the trace does not show the call being left behind its entry, where the registers there
/// could not be read, or where `X0` has no value.
pub proof fn law_a_call_gives_back_its_first_register(
    node: CallTreeNodeDto,
    regs: Registers,
    value: String,
)
    ensures
        returned(node, None) is None,
        returned(node, Some(regs)) == Some(value) <==> node.entry_seq < node.exit_seq
            && regs@.contains_key(seq!['X', '0']) && regs@[seq!['X', '0']] == value,
{
    reveal_strlit("X0");
    assert("X0"@ =~= seq!['X', '0']);
}

/// A function is found by a name exactly if its own name, in lower case, has the lower case of that
/// name somewhere in it. The functions found keep their order, none is left out and none added.
pub proof fn law_functions_are_found_by_a_part_of_their_names(
    fs: Seq<FunctionCallEntry>,
    f: FunctionCallEntry,
    query: Seq<char>,
)
    ensures
        name_holds(f, query) <==> exists|a: Seq<char>, b: Seq<char>|
            lowercase(f.func_name@) == #[trigger] (a + lowercase(query) + b),
        ({
            let kept = fs.filter(|f: FunctionCallEntry| name_holds(f, query));
            &&& functions_named(fs, query).len() == kept.len()
            &&& forall|i: int|
                0 <= i < kept.len() ==> (#[trigger] functions_named(fs, query)[i]).func_name
                    == kept[i].func_name && functions_named(fs, query)[i] == with_first_calls(
                    kept[i],
                )
        }),
{
    law_a_text_holds_its_pieces(lowercase(f.func_name@), lowercase(query));
}

/// Of a function that was found, the first fifty calls are shown, in order, and the number of all
/// of them is told, also where some are left out, which is told too.
pub proof fn law_the_first_fifty_calls_are_shown(f: FunctionCallEntry)
    ensures
        ({
            let v = with_first_calls(f);
            let n = f.occurrences@.len();
            &&& v.func_name == f.func_name
            &&& v.is_jni == f.is_jni
            &&& v.call_count == n
            &&& v.occurrences.len() == if n < 50 {
                n
            } else {
                50
            }
            &&& forall|i: int|
                0 <= i < v.occurrences.len() ==> #[trigger] v.occurrences[i] == f.occurrences@[i]
            &&& v.occurrences_truncated <==> n > 50
        }),
{
}

/// A page of the list of functions starts at the offset asked for and holds as many functions as
/// asked for, 100 at most, as far as there are any. Each is listed by its name, its kind and the
/// number of its calls.
pub proof fn law_function_pages(
    fs: Seq<FunctionCallEntry>,
    req: AnalyzeFunctionRequest,
    f: FunctionCallEntry,
    l: ListedFunction,
)
    ensures
        ({
            let page = function_page(fs, req);
            let most = if req.limit < 100 {
                req.limit as int
            } else {
                100
            };
            &&& page.len() == if req.offset >= fs.len() {
                0
            } else if req.offset + most <= fs.len() {
                most
            } else {
                fs.len() - req.offset
            }
            &&& forall|i: int| 0 <= i < page.len() ==> #[trigger] page[i] == fs[req.offset + i]
        }),
        listed_as(f, l) <==> l.func_name == f.func_name && l.call_count == f.occurrences@.len()
            && l.is_jni == f.is_jni,
{
}

/// What is said of a node that the tree does not have names the node.
pub proof fn law_a_missing_node_is_named(node_id: u32)
    ensures
        no_such_node(node_id) == "Node "@ + numeral(node_id as nat, 10) + " not found"@,
{
}

/// A request that names a node is about that node, whatever else it holds; else one that names a
/// function is about its name; else it is about all functions.
pub proof fn law_what_a_function_request_wants(req: AnalyzeFunctionRequest, r: FunctionQuery)
    requires
        call_ensures(function_query, (&req,), r),
    ensures
        req.node_id matches Some(id) ==> r == FunctionQuery::Node(id),
        req.node_id is None ==> (req.func_name matches Some(name) ==> r == FunctionQuery::Name(
            name,
        )),
        req.node_id is None && req.func_name is None ==> r == FunctionQuery::List,
{
}

/// A call is shown by the first node that the engine gives for it, with the arguments at the line
/// where it is entered; a value that it gave back is shown only where the registers were to be read
/// at the line where it is left, which lies behind the entry. Every call that it makes is counted.
pub proof fn law_a_call_is_shown_at_its_lines(
    node_id: u32,
    nodes: Vec<CallTreeNodeDto>,
    entry_regs: Registers,
    exit_regs: Option<Registers>,
    lines: Result<CallLines, String>,
    r: Result<FunctionDetail, String>,
)
    requires
        call_ensures(call_lines, (node_id, &nodes), lines),
        call_ensures(function_detail, (node_id, &nodes, &entry_regs, &exit_regs), r),
    ensures
        lines is Ok <==> nodes@.len() > 0,
        r is Ok <==> nodes@.len() > 0,
        (lines, r) matches (Ok(at), Ok(d)) ==> {
            &&& d.node_id == nodes@[0].id
            &&& d.func_name == nodes@[0].func_name
            &&& d.func_addr == nodes@[0].func_addr
            &&& d.line_count == nodes@[0].line_count
            &&& d.entry_seq == nodes@[0].entry_seq
            &&& d.exit_seq == nodes@[0].exit_seq
            &&& at.entry == d.entry_seq
            &&& at.exit is Some <==> d.entry_seq < d.exit_seq
            &&& at.exit is Some ==> at.exit == Some(d.exit_seq)
            &&& d.return_value is Some ==> at.exit is Some && exit_regs is Some
            &&& d.args@.len() <= 8
            &&& named(d.args@) == arguments(entry_regs@, 8)
            &&& d.sub_calls@.len() == d.sub_call_count == nodes@.len() - 1
        },
        (lines, r) matches (Err(a), Err(b)) ==> a@ == b@ && a@ == no_such_node(node_id),
{
    law_arguments_are_the_first_registers(entry_regs@, 8);
    assert(nodes@.len() > 0 ==> (r matches Ok(d) && named(d.args@).len() == d.args@.len()));
}

/// A page of the list of functions says that there are more exactly if the page after it has a
/// function, and tells how many there are in all.
pub proof fn law_the_function_list_goes_on(
    req: AnalyzeFunctionRequest,
    next: AnalyzeFunctionRequest,
    result: FunctionCallsResult,
    r: FunctionList,
)
    requires
        call_ensures(list_functions, (&req, &result), r),
        next.offset == req.offset + r.functions@.len(),
        next.limit > 0,
    ensures
        r.has_more <==> function_page(result.functions@, next).len() > 0,
        r.total == result.functions@.len(),
        r.total_calls == result.total_calls,
        r.offset == req.offset,
        forall|i: int|
            0 <= i < r.functions@.len() ==> (#[trigger] r.functions@[i]).func_name
                == result.functions@[req.offset + i].func_name && r.functions@[i].is_jni
                == result.functions@[req.offset + i].is_jni && r.functions@[i].call_count
                == result.functions@[req.offset + i].occurrences@.len(),
{
}

/// The functions found by a name are counted and given with the name asked for; each of them has
/// that name somewhere in its own, letter case set aside.
pub proof fn law_found_functions_are_counted(
    query: &str,
    result: FunctionCallsResult,
    r: FunctionMatches,
)
    requires
        call_ensures(find_functions, (query, result), r),
    ensures
        r.query@ == query@,
        r.matched_functions == r.functions@.len(),
        r.functions@.len() <= result.functions@.len(),
        forall|i: int|
            0 <= i < r.functions@.len() ==> contains_text(
                lowercase((#[trigger] r.functions@[i]).func_name@),
                lowercase(query@),
            ) && r.functions@[i].occurrences@.len() <= 50 && r.functions@[i].occurrences@.len()
                <= r.functions@[i].call_count && (r.functions@[i].occurrences_truncated
                <==> r.functions@[i].occurrences@.len() < r.functions@[i].call_count),
        r.hint@ == "No functions matched. Try a broader search term or use analyze_function with no arguments to list all functions."@
            || r.functions@.len() > 0,
{
    let all = result.functions@;
    let keep = |f: FunctionCallEntry| name_holds(f, query@);
    let kept = all.filter(keep);
    all.lemma_filter_len(keep);
    let views = functions_named(all, query@);
    assert(matched_views(r.functions@).len() == views.len());
    assert forall|i: int| 0 <= i < r.functions@.len() implies contains_text(
        lowercase((#[trigger] r.functions@[i]).func_name@),
        lowercase(query@),
    ) && r.functions@[i].occurrences@.len() <= 50 && r.functions@[i].occurrences@.len()
        <= r.functions@[i].call_count && (r.functions@[i].occurrences_truncated
        <==> r.functions@[i].occurrences@.len() < r.functions@[i].call_count) by {
        all.lemma_filter_pred(keep, i);
        assert(matched_views(r.functions@)[i] == r.functions@[i]@);
        assert(views[i] == with_first_calls(kept[i]));
    }
}

} // verus!
