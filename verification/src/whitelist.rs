//! Rules for requests that are never challenged.

use crate::ip::{is_address, IpAddr};
use crate::text::{lists, texts};
use vstd::prelude::*;

verus! {

// ------------------------------------------------------------------------------------------
// Networks
// ------------------------------------------------------------------------------------------

/// A block of addresses: those that agree with `addr` in the first `prefix_len` bits.
#[derive(Clone, Copy, Debug)]
pub struct Network {
    pub addr: IpAddr,
    pub prefix_len: u8,
}

/// The bits of octets, the highest bit of the first octet first.
pub open spec fn bits(octets: Seq<u8>) -> Seq<bool> {
    Seq::new(
        8 * octets.len(),
        |i: int| (octets[i / 8] >> ((7 - i % 8) as u8)) & 1 == 1,
    )
}

impl Network {
    /// Whether the prefix is no longer than the address.
    pub open spec fn wf(self) -> bool {
        self.prefix_len <= 8 * self.addr@.len()
    }

    /// The block: the number of octets of its addresses, and the bits that they share.
    pub open spec fn block(self) -> (nat, Seq<bool>) {
        block_of(self.addr@, self.prefix_len)
    }
}

/// The block that an address and a prefix length stand for. The other bits of the address do not
/// matter.
pub open spec fn block_of(octets: Seq<u8>, prefix_len: u8) -> (nat, Seq<bool>) {
    (octets.len(), bits(octets).take(prefix_len as int))
}

/// Whether a block contains an address.
pub open spec fn covers(block: (nat, Seq<bool>), octets: Seq<u8>) -> bool {
    &&& block.0 == octets.len()
    &&& block.1.len() <= 8 * octets.len()
    &&& bits(octets).take(block.1.len() as int) == block.1
}

/// Whether one of the blocks contains an address.
pub open spec fn covered(blocks: Set<(nat, Seq<bool>)>, octets: Seq<u8>) -> bool {
    exists|block: (nat, Seq<bool>)| #[trigger] blocks.contains(block) && covers(block, octets)
}

/// The octets and the prefix length that a text in CIDR notation stands for.
pub uninterp spec fn cidr_of_text(text: Seq<char>) -> Option<(Seq<u8>, u8)>;

/// Why a text is refused that is not in CIDR notation.
pub open spec fn cidr_error() -> Seq<char> {
    "invalid IP address syntax"@
}

/// `ipnet::IpNet::from_str`. What it accepts is named, not spelled out: an address of either
/// family, a slash, and a prefix length that the family admits. Its error always reads the same.
#[verifier::external_body]
fn parse_network(text: &str) -> (r: Result<Network, String>)
    ensures
        match r {
            Ok(net) => cidr_of_text(text@) == Some((net.addr@, net.prefix_len)) && net.wf(),
            Err(why) => cidr_of_text(text@) is None && why@ == cidr_error(),
        },
{
    match text.parse::<ipnet::IpNet>() {
        Ok(ipnet::IpNet::V4(net)) => Ok(
            Network { addr: IpAddr::V4(net.addr().octets()), prefix_len: net.prefix_len() },
        ),
        Ok(ipnet::IpNet::V6(net)) => Ok(
            Network { addr: IpAddr::V6(net.addr().octets()), prefix_len: net.prefix_len() },
        ),
        Err(e) => Err(e.to_string()),
    }
}

/// A set of blocks of addresses, as a `prefix_trie::joint::JointPrefixSet` of both families.
#[verifier::external_body]
pub struct Networks {
    set: prefix_trie::joint::JointPrefixSet<ipnet::IpNet>,
}

/// The blocks that a set holds.
pub uninterp spec fn blocks_held(set: Networks) -> Set<(nat, Seq<bool>)>;

/// `JointPrefixSet::new`: the empty set.
#[verifier::external_body]
fn no_networks() -> (r: Networks)
    ensures
        blocks_held(r) == Set::<(nat, Seq<bool>)>::empty(),
{
    Networks { set: prefix_trie::joint::JointPrefixSet::new() }
}

/// `JointPrefixSet::insert`: adds one block. The bits of the address behind the prefix are not
/// kept, so that equal blocks are one.
#[verifier::external_body]
fn insert_network(networks: &mut Networks, net: &Network)
    requires
        net.wf(),
    ensures
        blocks_held(*final(networks)) == blocks_held(*old(networks)).insert(net.block()),
{
    let net = match net.addr {
        IpAddr::V4(octets) => ipnet::IpNet::new(octets.into(), net.prefix_len).unwrap(),
        IpAddr::V6(octets) => ipnet::IpNet::new(octets.into(), net.prefix_len).unwrap(),
    };
    networks.set.insert(net);
}

/// `JointPrefixSet::get_lpm` at a single address: there is a longest match exactly where some block
/// of the set contains the address.
#[verifier::external_body]
fn contains_address(networks: &Networks, ip: IpAddr) -> (r: bool)
    ensures
        r == covered(blocks_held(*networks), ip@),
{
    let net = match ip {
        IpAddr::V4(octets) => ipnet::IpNet::new(octets.into(), 32).unwrap(),
        IpAddr::V6(octets) => ipnet::IpNet::new(octets.into(), 128).unwrap(),
    };
    networks.set.get_lpm(&net).is_some()
}

// ------------------------------------------------------------------------------------------
// Path patterns
// ------------------------------------------------------------------------------------------

/// The set of regular expressions that paths are matched against.
#[verifier::external_type_specification]
#[verifier::external_body]
pub struct ExRegexSet(regex::RegexSet);

/// The patterns that a set was compiled from.
pub uninterp spec fn patterns_held(set: regex::RegexSet) -> Seq<Seq<char>>;

/// Why patterns cannot be compiled to a set, where they cannot.
pub uninterp spec fn patterns_error(patterns: Seq<Seq<char>>) -> Option<Seq<char>>;

/// Whether a regular expression matches somewhere in a text.
pub uninterp spec fn regex_matches(pattern: Seq<char>, text: Seq<char>) -> bool;

/// Whether one of the patterns matches a text.
pub open spec fn any_matches(patterns: Seq<Seq<char>>, text: Seq<char>) -> bool {
    exists|i: int| 0 <= i < patterns.len() && regex_matches(#[trigger] patterns[i], text)
}

/// `regex::RegexSet::new`: a set of all the patterns, or why there is none. Which patterns are
/// valid is named, not spelled out, but that there is a set of no patterns.
#[verifier::external_body]
fn compile_patterns(patterns: &Vec<String>) -> (r: Result<regex::RegexSet, String>)
    ensures
        match r {
            Ok(set) => patterns_error(texts(patterns@)) is None && patterns_held(set) == texts(
                patterns@,
            ),
            Err(why) => patterns_error(texts(patterns@)) == Some(why@),
        },
        patterns@.len() == 0 ==> r is Ok,
{
    regex::RegexSet::new(patterns).map_err(|e| e.to_string())
}

/// `regex::RegexSet::is_match`: true if and only if one of the patterns in the set matches. What a
/// pattern matches is named, not spelled out.
#[verifier::external_body]
fn path_matches(set: &regex::RegexSet, path: &str) -> (r: bool)
    ensures
        r == (exists|i: int|
            0 <= i < patterns_held(*set).len()
            && regex_matches(#[trigger] patterns_held(*set)[i], path@)),
{
    set.is_match(path)
}

// ------------------------------------------------------------------------------------------
// The whitelist
// ------------------------------------------------------------------------------------------

/// Whitelist rules, compiled for quick querying. They are built once, when the configuration is
/// loaded, and asked for each request.
pub struct Whitelist {
    paths: regex::RegexSet,
    ips: Networks,
}

/// Whitelist rules as text.
#[derive(Debug)]
pub struct WhitelistParams {
    /// Regular expressions for paths.
    pub paths: Vec<String>,
    /// Blocks of addresses in CIDR notation.
    pub ips: Vec<String>,
}

impl Default for WhitelistParams {
    /// No rules.
    fn default() -> (r: Self)
        ensures
            r.paths@.len() == 0,
            r.ips@.len() == 0,
    {
        WhitelistParams { paths: Vec::new(), ips: Vec::new() }
    }
}

/// The whitelist rules of a configuration file: the `[whitelist]` section of the central one, or an
/// included file.
#[derive(Debug)]
pub struct FileWhitelist {
    pub path: Option<Vec<String>>,
    pub ip: Option<Vec<String>>,
    /// Files with further rules.
    pub includes: Option<Vec<String>>,
}

impl Default for FileWhitelist {
    /// Nothing is set.
    fn default() -> (r: Self)
        ensures
            r.path is None,
            r.ip is None,
            r.includes is None,
    {
        FileWhitelist { path: None, ip: None, includes: None }
    }
}

/// Why whitelist rules are invalid.
#[derive(Debug)]
pub enum WhitelistError {
    /// A path pattern is invalid, for the given reason.
    InvalidPath(String),
    /// The given text is not a block of addresses, for the given reason.
    InvalidCidr { text: String, why: String },
}

/// The list that an optional list stands for.
pub open spec fn listed(list: Option<Vec<String>>) -> Seq<String> {
    match list {
        Some(v) => v@,
        None => Seq::empty(),
    }
}

/// The path patterns of a configuration file.
pub open spec fn file_paths(file: Option<FileWhitelist>) -> Seq<String> {
    match file {
        Some(f) => listed(f.path),
        None => Seq::empty(),
    }
}

/// The blocks of addresses of a configuration file, as text.
pub open spec fn file_ips(file: Option<FileWhitelist>) -> Seq<String> {
    match file {
        Some(f) => listed(f.ip),
        None => Seq::empty(),
    }
}

/// The blocks that texts in CIDR notation stand for, where all of them are valid.
pub open spec fn blocks_of(ips: Seq<Seq<char>>) -> Set<(nat, Seq<bool>)>
    decreases ips.len(),
{
    if ips.len() == 0 {
        Set::empty()
    } else {
        let cidr = cidr_of_text(ips.last()).unwrap();
        blocks_of(ips.drop_last()).insert(block_of(cidr.0, cidr.1))
    }
}

/// Whether all of the first `n` texts are blocks in CIDR notation.
pub open spec fn all_cidr(ips: Seq<Seq<char>>, n: int) -> bool {
    forall|i: int| 0 <= i < n ==> cidr_of_text(#[trigger] ips[i]) is Some
}

/// Whether each of the first `n` texts is that of an address and of a prefix no longer than that.
pub open spec fn all_fit(ips: Seq<Seq<char>>, n: int) -> bool {
    forall|i: int|
        0 <= i < n ==> (cidr_of_text(#[trigger] ips[i]) matches Some(cidr) && is_address(cidr.0)
            && cidr.1 <= 8 * cidr.0.len())
}

/// Whether rules exempt a request to a path from an address.
pub open spec fn exempts(
    patterns: Seq<Seq<char>>,
    blocks: Set<(nat, Seq<bool>)>,
    path: Seq<char>,
    ip: Seq<u8>,
) -> bool {
    any_matches(patterns, path) || covered(blocks, ip)
}

/// The outcome of compiling rules: the path patterns are looked at first, and then the blocks in
/// their order. No path patterns are always valid.
pub open spec fn compiles_to(
    paths: Seq<Seq<char>>,
    ips: Seq<Seq<char>>,
    r: Result<Whitelist, WhitelistError>,
) -> bool {
    match r {
        Ok(w) => {
            &&& patterns_error(paths) is None
            &&& all_cidr(ips, ips.len() as int)
            &&& all_fit(ips, ips.len() as int)
            &&& w.patterns() == paths
            &&& w.blocks() == blocks_of(ips)
        },
        Err(WhitelistError::InvalidPath(why)) => paths.len() > 0 && patterns_error(paths) == Some(
            why@,
        ),
        Err(WhitelistError::InvalidCidr { text, why }) => {
            &&& why@ == cidr_error()
            &&& patterns_error(paths) is None
            &&& exists|i: int|
                0 <= i < ips.len() && all_cidr(ips, i) && #[trigger] ips[i] == text@
                    && cidr_of_text(ips[i]) is None
        },
    }
}

// ------------------------------------------------------------------------------------------
// Included files
// ------------------------------------------------------------------------------------------

/// The path patterns of files, one file after the other.
pub open spec fn all_paths(files: Seq<FileWhitelist>) -> Seq<String>
    decreases files.len(),
{
    if files.len() == 0 {
        Seq::empty()
    } else {
        all_paths(files.drop_last()) + listed(files.last().path)
    }
}

/// The blocks of addresses of files, one file after the other.
pub open spec fn all_ips(files: Seq<FileWhitelist>) -> Seq<String>
    decreases files.len(),
{
    if files.len() == 0 {
        Seq::empty()
    } else {
        all_ips(files.drop_last()) + listed(files.last().ip)
    }
}

/// The files that files name as further ones, one file after the other.
pub open spec fn all_includes(files: Seq<FileWhitelist>) -> Seq<String>
    decreases files.len(),
{
    if files.len() == 0 {
        Seq::empty()
    } else {
        all_includes(files.drop_last()) + listed(files.last().includes)
    }
}

/// The names that are not among those of the files that were read, each once and in order.
pub open spec fn unread_names(names: Seq<Seq<char>>, read: Seq<Seq<char>>) -> Seq<Seq<char>>
    decreases names.len(),
{
    if names.len() == 0 {
        Seq::empty()
    } else {
        let before = unread_names(names.drop_last(), read);
        if read.contains(names.last()) || before.contains(names.last()) {
            before
        } else {
            before.push(names.last())
        }
    }
}

/// Appends an optional list.
fn push_listed(all: &mut Vec<String>, list: &Option<Vec<String>>)
    ensures
        final(all)@ == old(all)@ + listed(*list),
{
    let ghost before = all@;
    match list {
        Some(items) => {
            let mut i: usize = 0;
            assert(before + items@.take(0) =~= before);
            while i < items.len()
                invariant
                    i <= items@.len(),
                    all@ == before + items@.take(i as int),
                decreases items@.len() - i,
            {
                all.push(items[i].clone());
                i += 1;
                assert(all@ =~= before + items@.take(i as int));
            }
            assert(items@.take(i as int) =~= items@);
        },
        None => {
            assert(before + Seq::<String>::empty() =~= before);
        },
    }
}

impl FileWhitelist {
    /// The rules of this file together with those of the files that it includes, in order. What
    /// those files include in turn is still to be read.
    pub fn with_included(self, included: Vec<FileWhitelist>) -> (r: FileWhitelist)
        ensures
            listed(r.path) == listed(self.path) + all_paths(included@),
            listed(r.ip) == listed(self.ip) + all_ips(included@),
            listed(r.includes) == all_includes(included@),
    {
        let mut paths: Vec<String> = Vec::new();
        let mut ips: Vec<String> = Vec::new();
        let mut includes: Vec<String> = Vec::new();
        push_listed(&mut paths, &self.path);
        push_listed(&mut ips, &self.ip);
        assert(paths@ =~= listed(self.path) + all_paths(included@.take(0)));
        assert(ips@ =~= listed(self.ip) + all_ips(included@.take(0)));
        assert(includes@ =~= all_includes(included@.take(0)));
        let mut i: usize = 0;
        while i < included.len()
            invariant
                i <= included@.len(),
                paths@ == listed(self.path) + all_paths(included@.take(i as int)),
                ips@ == listed(self.ip) + all_ips(included@.take(i as int)),
                includes@ == all_includes(included@.take(i as int)),
            decreases included@.len() - i,
        {
            push_listed(&mut paths, &included[i].path);
            push_listed(&mut ips, &included[i].ip);
            push_listed(&mut includes, &included[i].includes);
            i += 1;
            let ghost taken = included@.take(i as int);
            assert(taken.drop_last() =~= included@.take(i - 1));
            assert(paths@ =~= listed(self.path) + all_paths(taken));
            assert(ips@ =~= listed(self.ip) + all_ips(taken));
            assert(includes@ =~= all_includes(taken));
        }
        assert(included@.take(i as int) =~= included@);
        FileWhitelist { path: Some(paths), ip: Some(ips), includes: Some(includes) }
    }

    /// The files that this one includes and that are not among those that were read, each once.
    pub fn unread(&self, read: &Vec<String>) -> (r: Vec<String>)
        ensures
            texts(r@) == unread_names(texts(listed(self.includes)), texts(read@)),
    {
        let mut names: Vec<String> = Vec::new();
        push_listed(&mut names, &self.includes);
        assert(names@ =~= listed(self.includes));
        let ghost all = texts(names@);
        let mut r: Vec<String> = Vec::new();
        let mut i: usize = 0;
        assert(texts(r@) =~= unread_names(all.take(0), texts(read@)));
        while i < names.len()
            invariant
                i <= names@.len(),
                all == texts(names@),
                texts(r@) == unread_names(all.take(i as int), texts(read@)),
            decreases names@.len() - i,
        {
            let ghost so_far = r@;
            assert(all.take(i + 1).drop_last() =~= all.take(i as int));
            assert(all.take(i + 1).last() == names@[i as int]@);
            let name = names[i].as_str();
            if !lists(read, name) && !lists(&r, name) {
                r.push(names[i].clone());
                assert(texts(r@) =~= texts(so_far).push(names@[i as int]@));
            }
            i += 1;
        }
        assert(all.take(i as int) =~= all);
        r
    }
}

impl WhitelistParams {
    /// The rules of a configuration file; a missing list is an empty one.
    pub fn from_file(file: Option<FileWhitelist>) -> (r: Self)
        ensures
            r.paths@ == file_paths(file),
            r.ips@ == file_ips(file),
    {
        match file {
            Some(f) => {
                let paths = match f.path {
                    Some(list) => list,
                    None => Vec::new(),
                };
                let ips = match f.ip {
                    Some(list) => list,
                    None => Vec::new(),
                };
                WhitelistParams { paths, ips }
            },
            None => WhitelistParams { paths: Vec::new(), ips: Vec::new() },
        }
    }
}

impl Whitelist {
    /// The path patterns.
    pub closed spec fn patterns(self) -> Seq<Seq<char>> {
        patterns_held(self.paths)
    }

    /// The blocks of addresses.
    pub closed spec fn blocks(self) -> Set<(nat, Seq<bool>)> {
        blocks_held(self.ips)
    }

    /// Compiles rules.
    pub fn new(params: &WhitelistParams) -> (r: Result<Self, WhitelistError>)
        ensures
            compiles_to(texts(params.paths@), texts(params.ips@), r),
    {
        let paths = match compile_patterns(&params.paths) {
            Ok(set) => set,
            Err(why) => {
                return Err(WhitelistError::InvalidPath(why));
            },
        };
        let ghost blocks = texts(params.ips@);
        let mut ips = no_networks();
        let mut i: usize = 0;
        assert(blocks.take(0) =~= Seq::empty());
        while i < params.ips.len()
            invariant
                i <= params.ips@.len(),
                blocks == texts(params.ips@),
                all_cidr(blocks, i as int),
                all_fit(blocks, i as int),
                blocks_held(ips) == blocks_of(blocks.take(i as int)),
                patterns_error(texts(params.paths@)) is None,
            decreases params.ips@.len() - i,
        {
            assert(blocks[i as int] == params.ips@[i as int]@);
            match parse_network(params.ips[i].as_str()) {
                Ok(net) => {
                    insert_network(&mut ips, &net);
                    assert(blocks.take(i + 1).drop_last() =~= blocks.take(i as int));
                    assert(blocks.take(i + 1).last() == blocks[i as int]);
                },
                Err(why) => {
                    return Err(WhitelistError::InvalidCidr { text: params.ips[i].clone(), why });
                },
            }
            i += 1;
        }
        assert(blocks.take(i as int) =~= blocks);
        Ok(Whitelist { paths, ips })
    }

    /// Compiles the rules of a configuration file, with which those of the files that it includes
    /// have been put together.
    pub fn from_config(file: Option<FileWhitelist>) -> (r: Result<Self, WhitelistError>)
        ensures
            compiles_to(texts(file_paths(file)), texts(file_ips(file)), r),
    {
        let params = WhitelistParams::from_file(file);
        Whitelist::new(&params)
    }

    /// Whether a request matches a whitelist rule.
    pub fn is_exempt(&self, path: &str, ip: IpAddr) -> (r: bool)
        ensures
            r == exempts(self.patterns(), self.blocks(), path@, ip@),
    {
        path_matches(&self.paths, path) || contains_address(&self.ips, ip)
    }
}

/// Without rules, nothing is exempt.
pub proof fn law_no_rules_exempt_nothing(path: Seq<char>, ip: Seq<u8>)
    ensures
        !exempts(Seq::empty(), blocks_of(Seq::empty()), path, ip),
{
}

/// A whitelist without rules is valid, and so is one whose blocks are all in CIDR notation where it
/// has no path patterns.
pub proof fn law_no_patterns_are_valid(
    ips: Seq<Seq<char>>,
    r: Result<Whitelist, WhitelistError>,
)
    requires
        compiles_to(Seq::empty(), ips, r),
        all_cidr(ips, ips.len() as int),
    ensures
        r matches Ok(w) && w.patterns() == Seq::<Seq<char>>::empty() && w.blocks() == blocks_of(
            ips,
        ),
{
}

/// Every rule of an included file counts: it is among the rules that the files have together.
pub proof fn law_included_rules_count(files: Seq<FileWhitelist>, i: int, j: int)
    requires
        0 <= i < files.len(),
    ensures
        0 <= j < listed(files[i].path).len() ==> all_paths(files).contains(
            listed(files[i].path)[j],
        ),
        0 <= j < listed(files[i].ip).len() ==> all_ips(files).contains(listed(files[i].ip)[j]),
        0 <= j < listed(files[i].includes).len() ==> all_includes(files).contains(
            listed(files[i].includes)[j],
        ),
    decreases files.len(),
{
    let rest = files.drop_last();
    let last = files.last();
    if i < rest.len() {
        law_included_rules_count(rest, i, j);
        assert(rest[i] == files[i]);
        if 0 <= j < listed(files[i].path).len() {
            lemma_stays(all_paths(rest), listed(last.path), listed(files[i].path)[j]);
        }
        if 0 <= j < listed(files[i].ip).len() {
            lemma_stays(all_ips(rest), listed(last.ip), listed(files[i].ip)[j]);
        }
        if 0 <= j < listed(files[i].includes).len() {
            lemma_stays(all_includes(rest), listed(last.includes), listed(files[i].includes)[j]);
        }
    } else {
        if 0 <= j < listed(last.path).len() {
            assert(all_paths(files)[all_paths(rest).len() + j] == listed(last.path)[j]);
        }
        if 0 <= j < listed(last.ip).len() {
            assert(all_ips(files)[all_ips(rest).len() + j] == listed(last.ip)[j]);
        }
        if 0 <= j < listed(last.includes).len() {
            assert(all_includes(files)[all_includes(rest).len() + j] == listed(last.includes)[j]);
        }
    }
}

/// What a list holds, it holds with more behind it.
proof fn lemma_stays(list: Seq<String>, more: Seq<String>, item: String)
    requires
        list.contains(item),
    ensures
        (list + more).contains(item),
{
    let k = choose|k: int| 0 <= k < list.len() && list[k] == item;
    assert((list + more)[k] == item);
}

/// No file is read twice, and none that is named is left out: a name is to be read exactly where it
/// is named and was not read yet, and it is listed once.
pub proof fn law_each_file_is_read_once(
    names: Seq<Seq<char>>,
    read: Seq<Seq<char>>,
    name: Seq<char>,
)
    ensures
        unread_names(names, read).contains(name) <==> names.contains(name) && !read.contains(name),
        unread_names(names, read).no_duplicates(),
    decreases names.len(),
{
    if names.len() > 0 {
        let rest = names.drop_last();
        let last = names.last();
        let before = unread_names(rest, read);
        law_each_file_is_read_once(rest, read, name);
        law_each_file_is_read_once(rest, read, last);
        assert(names =~= rest.push(last));
        assert(names.contains(name) <==> rest.contains(name) || name == last) by {
            if rest.contains(name) {
                let k = choose|k: int| 0 <= k < rest.len() && rest[k] == name;
                assert(names[k] == name);
            }
            assert(names[names.len() - 1] == last);
        }
        if !read.contains(last) && !before.contains(last) {
            let after = before.push(last);
            assert(after.contains(name) <==> before.contains(name) || name == last) by {
                if before.contains(name) {
                    let k = choose|k: int| 0 <= k < before.len() && before[k] == name;
                    assert(after[k] == name);
                }
                assert(after[after.len() - 1] == last);
            }
        }
    }
}

/// More rules exempt no less: a request that is exempt stays so when patterns and blocks are added.
pub proof fn law_more_rules_exempt_no_less(
    patterns: Seq<Seq<char>>,
    blocks: Set<(nat, Seq<bool>)>,
    more_patterns: Seq<Seq<char>>,
    more_blocks: Set<(nat, Seq<bool>)>,
    path: Seq<char>,
    ip: Seq<u8>,
)
    requires
        exempts(patterns, blocks, path, ip),
    ensures
        exempts(patterns + more_patterns, blocks.union(more_blocks), path, ip),
{
    let all = patterns + more_patterns;
    if any_matches(patterns, path) {
        let i = choose|i: int| 0 <= i < patterns.len() && regex_matches(#[trigger] patterns[i], path);
        assert(all[i] == patterns[i]);
    } else {
        let block = choose|block: (nat, Seq<bool>)| #[trigger]
            blocks.contains(block) && covers(block, ip);
        assert(blocks.union(more_blocks).contains(block));
    }
}

/// Octets with the same bits are the same.
proof fn lemma_bits_injective(a: Seq<u8>, b: Seq<u8>)
    requires
        a.len() == b.len(),
        bits(a) == bits(b),
    ensures
        a == b,
{
    assert forall|i: int| 0 <= i < a.len() implies a[i] == b[i] by {
        let x = a[i];
        let y = b[i];
        assert forall|k: u8| k < 8 implies ((#[trigger] (x >> k)) & 1 == 1) == ((y >> k) & 1 == 1) by {
            let n = 8 * i + (7 - k);
            assert(n / 8 == i && n % 8 == 7 - k);
            assert(0 <= n < bits(a).len());
            assert((7 - n % 8) as u8 == k);
            assert(bits(a)[n] == ((a[n / 8] >> ((7 - n % 8) as u8)) & 1 == 1));
            assert(bits(b)[n] == ((b[n / 8] >> ((7 - n % 8) as u8)) & 1 == 1));
            assert(bits(a)[n] == ((x >> k) & 1 == 1));
            assert(bits(b)[n] == ((y >> k) & 1 == 1));
        }
        assert((x >> 0u8) & 1 == 1 <==> (y >> 0u8) & 1 == 1);
        assert((x >> 1u8) & 1 == 1 <==> (y >> 1u8) & 1 == 1);
        assert((x >> 2u8) & 1 == 1 <==> (y >> 2u8) & 1 == 1);
        assert((x >> 3u8) & 1 == 1 <==> (y >> 3u8) & 1 == 1);
        assert((x >> 4u8) & 1 == 1 <==> (y >> 4u8) & 1 == 1);
        assert((x >> 5u8) & 1 == 1 <==> (y >> 5u8) & 1 == 1);
        assert((x >> 6u8) & 1 == 1 <==> (y >> 6u8) & 1 == 1);
        assert((x >> 7u8) & 1 == 1 <==> (y >> 7u8) & 1 == 1);
        assert(x == y) by (bit_vector)
            requires
                (x >> 0u8) & 1 == 1 <==> (y >> 0u8) & 1 == 1,
                (x >> 1u8) & 1 == 1 <==> (y >> 1u8) & 1 == 1,
                (x >> 2u8) & 1 == 1 <==> (y >> 2u8) & 1 == 1,
                (x >> 3u8) & 1 == 1 <==> (y >> 3u8) & 1 == 1,
                (x >> 4u8) & 1 == 1 <==> (y >> 4u8) & 1 == 1,
                (x >> 5u8) & 1 == 1 <==> (y >> 5u8) & 1 == 1,
                (x >> 6u8) & 1 == 1 <==> (y >> 6u8) & 1 == 1,
                (x >> 7u8) & 1 == 1 <==> (y >> 7u8) & 1 == 1,
        ;
    }
    assert(a =~= b);
}

/// A block whose prefix is as long as the address is that single address.
pub proof fn law_full_prefix_is_one_address(net: Network, octets: Seq<u8>)
    requires
        net.prefix_len == 8 * net.addr@.len(),
    ensures
        covers(net.block(), octets) <==> octets == net.addr@,
{
    let own = bits(net.addr@);
    assert(own.take(own.len() as int) =~= own);
    if covers(net.block(), octets) {
        assert(bits(octets).take(own.len() as int) =~= bits(octets));
        lemma_bits_injective(octets, net.addr@);
    }
}

/// A block holds the address it was written with, and a shorter prefix holds all that a longer one
/// of the same address does.
pub proof fn law_shorter_prefix_covers_more(addr: IpAddr, short: u8, long: u8, octets: Seq<u8>)
    requires
        short <= long <= 8 * addr@.len(),
    ensures
        covers(block_of(addr@, long), addr@),
        covers(block_of(addr@, long), octets) ==> covers(block_of(addr@, short), octets),
{
    if covers(block_of(addr@, long), octets) {
        assert(bits(octets).take(short as int) =~= bits(octets).take(long as int).take(
            short as int,
        ));
        assert(bits(addr@).take(short as int) =~= bits(addr@).take(long as int).take(short as int));
    }
}

/// The bit of an address at a place, the highest bit of the first octet first.
pub open spec fn address_bit(octets: Seq<u8>, place: int) -> bool {
    (octets[place / 8] >> ((7 - place % 8) as u8)) & 1u8 == 1u8
}

/// Whether a text is that of a block of addresses, and an address is in that block: it is of the
/// same family, and the bits of the prefix agree.
pub open spec fn is_in_block(text: Seq<char>, octets: Seq<u8>) -> bool {
    &&& cidr_of_text(text) is Some
    &&& cidr_of_text(text).unwrap().0.len() == octets.len()
    &&& forall|place: int|
        0 <= place < cidr_of_text(text).unwrap().1 ==> #[trigger] address_bit(octets, place)
            == address_bit(cidr_of_text(text).unwrap().0, place)
}

/// A whitelist exempts a request exactly where one of the patterns that it was made from matches
/// the path, or one of the blocks that it was made from holds the address.
pub proof fn law_rules_decide(
    params: WhitelistParams,
    made: Result<Whitelist, WhitelistError>,
    path: &str,
    ip: IpAddr,
    exempt: bool,
)
    requires
        call_ensures(Whitelist::new, (&params,), made),
        made is Ok,
        call_ensures(Whitelist::is_exempt, (&made->Ok_0, path, ip), exempt),
    ensures
        exempt <==> {
            ||| exists|i: int|
                0 <= i < params.paths@.len() && regex_matches((#[trigger] params.paths@[i])@, path@)
            ||| exists|i: int|
                0 <= i < params.ips@.len() && is_in_block((#[trigger] params.ips@[i])@, ip@)
        },
{
    let paths = texts(params.paths@);
    let ips = texts(params.ips@);
    if any_matches(paths, path@) {
        let i = choose|i: int| 0 <= i < paths.len() && regex_matches(#[trigger] paths[i], path@);
        assert(regex_matches(params.paths@[i]@, path@));
    }
    if exists|i: int|
        0 <= i < params.paths@.len() && regex_matches((#[trigger] params.paths@[i])@, path@) {
        let i = choose|i: int|
            0 <= i < params.paths@.len() && regex_matches((#[trigger] params.paths@[i])@, path@);
        assert(paths[i] == params.paths@[i]@);
    }
    if covered(blocks_of(ips), ip@) {
        let block = choose|block: (nat, Seq<bool>)| #[trigger]
            blocks_of(ips).contains(block) && covers(block, ip@);
        lemma_block_is_of_a_text(ips, block);
        let i = choose|i: int|
            0 <= i < ips.len() && is_block_of(#[trigger] ips[i], block);
        assert(ips[i] == params.ips@[i]@);
        lemma_in_block(ips[i], ip@);
        assert(is_in_block(params.ips@[i]@, ip@));
    }
    if exists|i: int|
        0 <= i < params.ips@.len() && is_in_block((#[trigger] params.ips@[i])@, ip@) {
        let i = choose|i: int|
            0 <= i < params.ips@.len() && is_in_block((#[trigger] params.ips@[i])@, ip@);
        assert(ips[i] == params.ips@[i]@);
        let cidr = cidr_of_text(ips[i]).unwrap();
        let block = block_of(cidr.0, cidr.1);
        lemma_in_block(ips[i], ip@);
        assert(is_block_of(ips[i], block));
        lemma_block_is_of_a_text(ips, block);
        assert(blocks_of(ips).contains(block));
    }
}

/// Whether a block is that of a text.
spec fn is_block_of(text: Seq<char>, block: (nat, Seq<bool>)) -> bool {
    cidr_of_text(text) matches Some(cidr) && block == block_of(cidr.0, cidr.1)
}

proof fn lemma_block_is_of_a_text(ips: Seq<Seq<char>>, block: (nat, Seq<bool>))
    requires
        all_cidr(ips, ips.len() as int),
    ensures
        blocks_of(ips).contains(block) <==> exists|i: int|
            0 <= i < ips.len() && is_block_of(#[trigger] ips[i], block),
    decreases ips.len(),
{
    if ips.len() > 0 {
        let rest = ips.drop_last();
        let n = ips.len() - 1;
        assert forall|i: int| 0 <= i < rest.len() implies cidr_of_text(#[trigger] rest[i]) is Some by {
            assert(rest[i] == ips[i]);
        }
        lemma_block_is_of_a_text(rest, block);
        assert(cidr_of_text(ips[n]) is Some);
        if blocks_of(ips).contains(block) {
            if blocks_of(rest).contains(block) {
                let i = choose|i: int|
                    0 <= i < rest.len() && is_block_of(#[trigger] rest[i], block);
                assert(ips[i] == rest[i]);
            } else {
                assert(is_block_of(ips[n], block));
            }
        }
        if exists|i: int| 0 <= i < ips.len() && is_block_of(#[trigger] ips[i], block) {
            let i = choose|i: int| 0 <= i < ips.len() && is_block_of(#[trigger] ips[i], block);
            if i < n {
                assert(rest[i] == ips[i]);
            }
        }
    }
}

proof fn lemma_in_block(text: Seq<char>, octets: Seq<u8>)
    requires
        cidr_of_text(text) matches Some(cidr) && is_address(cidr.0) && cidr.1 <= 8 * cidr.0.len(),
    ensures
        ({
            let cidr = cidr_of_text(text).unwrap();
            is_in_block(text, octets) <==> covers(block_of(cidr.0, cidr.1), octets)
        }),
{
    let cidr = cidr_of_text(text).unwrap();
    let block = block_of(cidr.0, cidr.1);
    let n = cidr.1 as int;
    if cidr.0.len() == octets.len() {
        assert forall|k: int| 0 <= k < n implies bits(octets)[k] == #[trigger] address_bit(
            octets,
            k,
        ) && bits(cidr.0)[k] == address_bit(cidr.0, k) by {}
        if covers(block, octets) {
            assert forall|place: int| 0 <= place < n implies #[trigger] address_bit(octets, place)
                == address_bit(cidr.0, place) by {
                assert(bits(octets).take(n)[place] == bits(cidr.0).take(n)[place]);
            }
        }
        if is_in_block(text, octets) {
            assert forall|k: int| 0 <= k < n implies bits(octets)[k] == bits(cidr.0)[k] by {
                assert(address_bit(octets, k) == address_bit(cidr.0, k));
            }
            assert(bits(octets).take(n) =~= bits(cidr.0).take(n));
        }
    }
}

/// Making a whitelist fails exactly where the patterns are not valid, or else one of the texts is
/// no block of addresses; then the first such text is told.
pub proof fn law_invalid_rules_are_refused(
    params: WhitelistParams,
    made: Result<Whitelist, WhitelistError>,
)
    requires
        call_ensures(Whitelist::new, (&params,), made),
    ensures
        made is Ok <==> {
            &&& patterns_error(texts(params.paths@)) is None
            &&& forall|i: int|
                0 <= i < params.ips@.len() ==> cidr_of_text((#[trigger] params.ips@[i])@) is Some
        },
        made matches Err(WhitelistError::InvalidPath(why)) ==> patterns_error(texts(params.paths@))
            == Some(why@) && params.paths@.len() > 0,
        made matches Err(WhitelistError::InvalidCidr { text, why }) ==> {
            &&& patterns_error(texts(params.paths@)) is None
            &&& why@ == "invalid IP address syntax"@
            &&& exists|i: int|
                {
                    &&& 0 <= i < params.ips@.len()
                    &&& (#[trigger] params.ips@[i])@ == text@
                    &&& cidr_of_text(text@) is None
                    &&& forall|j: int|
                        0 <= j < i ==> cidr_of_text((#[trigger] params.ips@[j])@) is Some
                }
        },
{
    let ips = texts(params.ips@);
    if made is Ok {
        assert forall|i: int| 0 <= i < params.ips@.len() implies cidr_of_text(
            (#[trigger] params.ips@[i])@,
        ) is Some by {
            assert(cidr_of_text(ips[i]) is Some);
        }
    }
    if let Err(WhitelistError::InvalidCidr { text, why }) = made {
        let i = choose|i: int|
            0 <= i < ips.len() && all_cidr(ips, i) && #[trigger] ips[i] == text@ && cidr_of_text(
                ips[i],
            ) is None;
        assert(params.ips@[i]@ == text@);
        assert forall|j: int| 0 <= j < i implies cidr_of_text(
            (#[trigger] params.ips@[j])@,
        ) is Some by {
            assert(cidr_of_text(ips[j]) is Some);
        }
    }
}

/// The rules of a configuration are those of its section, as they stand: a whitelist that is made
/// from a section is one that could be made from its lists, and a missing list is empty.
pub proof fn law_section_gives_the_rules(
    file: Option<FileWhitelist>,
    params: WhitelistParams,
    made: Result<Whitelist, WhitelistError>,
)
    requires
        call_ensures(WhitelistParams::from_file, (file,), params),
        call_ensures(Whitelist::from_config, (file,), made),
    ensures
        params.paths@ == match file {
            Some(FileWhitelist { path: Some(list), .. }) => list@,
            _ => Seq::empty(),
        },
        params.ips@ == match file {
            Some(FileWhitelist { ip: Some(list), .. }) => list@,
            _ => Seq::empty(),
        },
        compiles_to(texts(params.paths@), texts(params.ips@), made),
{
}

/// Rules add up: those of several files are those of the first ones and then those of the others,
/// and those of one file are its own. With the rules of the including file before them they make up
/// the whole, and what is still to be read is what the included files name.
pub proof fn law_included_rules_add_up(
    file: FileWhitelist,
    included: Vec<FileWhitelist>,
    merged: FileWhitelist,
    some: Seq<FileWhitelist>,
    more: Seq<FileWhitelist>,
)
    requires
        call_ensures(FileWhitelist::with_included, (file, included), merged),
    ensures
        all_paths(some + more) == all_paths(some) + all_paths(more),
        all_ips(some + more) == all_ips(some) + all_ips(more),
        all_includes(some + more) == all_includes(some) + all_includes(more),
        all_paths(seq![file]) == listed(file.path),
        all_ips(seq![file]) == listed(file.ip),
        all_includes(seq![file]) == listed(file.includes),
        listed(merged.path) == all_paths(seq![file] + included@),
        listed(merged.ip) == all_ips(seq![file] + included@),
        listed(merged.includes) == all_includes(included@),
    decreases more.len(),
{
    lemma_rules_add_up(some, more);
    let none = Seq::<FileWhitelist>::empty();
    let one = seq![file];
    lemma_rules_add_up(one, included@);
    assert(one.drop_last() =~= none);
    assert(one.last() == file);
    assert(all_paths(one.drop_last()) == Seq::<String>::empty());
    assert(all_ips(one.drop_last()) == Seq::<String>::empty());
    assert(all_includes(one.drop_last()) == Seq::<String>::empty());
    assert(all_paths(one) =~= listed(file.path));
    assert(all_ips(one) =~= listed(file.ip));
    assert(all_includes(one) =~= listed(file.includes));
}

proof fn lemma_rules_add_up(some: Seq<FileWhitelist>, more: Seq<FileWhitelist>)
    ensures
        all_paths(some + more) == all_paths(some) + all_paths(more),
        all_ips(some + more) == all_ips(some) + all_ips(more),
        all_includes(some + more) == all_includes(some) + all_includes(more),
    decreases more.len(),
{
    let all = some + more;
    if more.len() == 0 {
        assert(all =~= some);
        assert(all_paths(some) + all_paths(more) =~= all_paths(some));
        assert(all_ips(some) + all_ips(more) =~= all_ips(some));
        assert(all_includes(some) + all_includes(more) =~= all_includes(some));
    } else {
        let rest = more.drop_last();
        lemma_rules_add_up(some, rest);
        assert(all.drop_last() =~= some + rest);
        assert(all.last() == more.last());
        assert(all_paths(all) =~= all_paths(some) + all_paths(more));
        assert(all_ips(all) =~= all_ips(some) + all_ips(more));
        assert(all_includes(all) =~= all_includes(some) + all_includes(more));
    }
}

/// What is to be read are the names that the list has and that were not read, each once.
pub proof fn law_unread_files_are_told(
    file: FileWhitelist,
    read: Vec<String>,
    names: Vec<String>,
    name: Seq<char>,
)
    requires
        call_ensures(FileWhitelist::unread, (&file, &read), names),
    ensures
        texts(names@).contains(name) <==> texts(
            match file.includes {
                Some(list) => list@,
                None => Seq::empty(),
            },
        ).contains(name) && !texts(read@).contains(name),
        texts(names@).no_duplicates(),
{
    law_each_file_is_read_once(texts(listed(file.includes)), texts(read@), name);
}

} // verus!
