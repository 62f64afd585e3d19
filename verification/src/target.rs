//! Where a send is going, read out of the target string.
use vstd::prelude::*;
use vstd::slice::{slice_subrange, slice_to_vec};

use crate::ber::{dotted, law_dotted_reads_back, lemma_dotted, oid_of, read_dotted};
use crate::error::{Fault, Refusal, Result};
use crate::pdu::{VERSION_2C, VERSION_3};
use crate::text::{chars_of, contains_text, find, has_part, is_text, split, split_once};
use crate::text::{lemma_first_index, string_of, strip_prefix, without_prefix};

verus! {

/// What a send does at the far end.
#[derive(Debug, PartialEq, Eq)]
pub enum Action {
    /// Raise a trap: fire and forget.
    Trap,
    /// Raise an inform: a trap the far end acknowledges.
    Inform,
    /// Set the named object to the bytes as an OCTET STRING.
    SetObject(Vec<u32>),
}

/// An action as the contracts speak of it.
pub enum ActionModel {
    Trap,
    Inform,
    SetObject(Seq<u32>),
}

impl View for Action {
    type V = ActionModel;

    open spec fn view(&self) -> ActionModel {
        match *self {
            Action::Trap => ActionModel::Trap,
            Action::Inform => ActionModel::Inform,
            Action::SetObject(oid) => ActionModel::SetObject(oid@),
        }
    }
}

impl Clone for Action {
    fn clone(&self) -> (copy: Self)
        ensures
            copy@ == self@,
    {
        match self {
            Action::Trap => Action::Trap,
            Action::Inform => Action::Inform,
            Action::SetObject(oid) => Action::SetObject(slice_to_vec(oid.as_slice())),
        }
    }
}

/// A parsed `snmp://`, `snmp+inform://` or `snmp+set://` target, or a bare
/// `host:port` that raises a trap with everything else as configured.
///
/// The query carries `community`, `version` (`2c` or `3`), `user` for v3
/// and `trap-oid`; whichever is absent falls back to the transport.
#[derive(Debug, PartialEq, Eq)]
pub struct SnmpTarget {
    pub address: String,
    pub action: Action,
    pub community: Option<String>,
    pub version: Option<i64>,
    pub user: Option<String>,
    pub trap_oid: Option<Vec<u32>>,
}

/// A target as the contracts speak of it.
pub struct TargetModel {
    pub address: Seq<char>,
    pub action: ActionModel,
    pub community: Option<Seq<char>>,
    pub version: Option<i64>,
    pub user: Option<Seq<char>>,
    pub trap_oid: Option<Seq<u32>>,
}

/// The text that is there, where one is.
pub open spec fn text_there(text: Option<String>) -> Option<Seq<char>> {
    match text {
        Some(t) => Some(t@),
        None => None,
    }
}

/// The arcs that are there, where any are.
pub open spec fn arcs_there(arcs: Option<Vec<u32>>) -> Option<Seq<u32>> {
    match arcs {
        Some(a) => Some(a@),
        None => None,
    }
}

impl View for SnmpTarget {
    type V = TargetModel;

    open spec fn view(&self) -> TargetModel {
        TargetModel {
            address: self.address@,
            action: self.action@,
            community: text_there(self.community),
            version: self.version,
            user: text_there(self.user),
            trap_oid: arcs_there(self.trap_oid),
        }
    }
}

/// `text`, cloned.
fn clone_text(text: &Option<String>) -> (copy: Option<String>)
    ensures
        text_there(copy) == text_there(*text),
{
    match text {
        Some(t) => Some(t.clone()),
        None => None,
    }
}

impl Clone for SnmpTarget {
    fn clone(&self) -> (copy: Self)
        ensures
            copy@ == self@,
    {
        SnmpTarget {
            address: self.address.clone(),
            action: self.action.clone(),
            community: clone_text(&self.community),
            version: self.version,
            user: clone_text(&self.user),
            trap_oid: match &self.trap_oid {
                Some(arcs) => Some(slice_to_vec(arcs.as_slice())),
                None => None,
            },
        }
    }
}

/// What the scheme of a target asks for.
#[derive(Clone, Copy, Debug, PartialEq, Eq, Structural)]
pub enum Scheme {
    Trap,
    Inform,
    SetObject,
}

/// What the scheme of `target` asks for, and what follows it; a target with
/// no scheme at all is an address.
pub open spec fn scheme_of(target: Seq<char>) -> core::result::Result<
    (Scheme, Seq<char>),
    Refusal,
> {
    if let Some(rest) = strip_prefix(target, "snmp+set://"@) {
        Ok((Scheme::SetObject, rest))
    } else if let Some(rest) = strip_prefix(target, "snmp+inform://"@) {
        Ok((Scheme::Inform, rest))
    } else if let Some(rest) = strip_prefix(target, "snmp+trap://"@) {
        Ok((Scheme::Trap, rest))
    } else if let Some(rest) = strip_prefix(target, "snmp://"@) {
        Ok((Scheme::Trap, rest))
    } else if has_part(target, "://"@) {
        Err(Fault::NotSnmpTarget(target))
    } else {
        Ok((Scheme::Trap, target))
    }
}

/// What is before the first `c`, and what is after it: nothing, where there
/// is no `c`.
pub open spec fn parted(s: Seq<char>, c: char) -> (Seq<char>, Seq<char>) {
    match split_once(s, c) {
        Some(parts) => parts,
        None => (s, Seq::empty()),
    }
}

/// What `pair` gives `key`, where it is `key=value`.
pub open spec fn given_by(pair: Seq<char>, key: Seq<char>) -> Option<Seq<char>> {
    match strip_prefix(pair, key) {
        None => None,
        Some(rest) => strip_prefix(rest, seq!['=']),
    }
}

/// What the first of `pairs` that is `key=value` gives.
pub open spec fn value_among(pairs: Seq<Seq<char>>, key: Seq<char>) -> Option<Seq<char>>
    decreases pairs.len(),
{
    if pairs.len() == 0 {
        None
    } else {
        match given_by(pairs[0], key) {
            Some(value) => Some(value),
            None => value_among(pairs.skip(1), key),
        }
    }
}

/// What `query` gives `key`.
pub open spec fn query_value(query: Seq<char>, key: Seq<char>) -> Option<Seq<char>> {
    value_among(split(query, '&'), key)
}

/// The version a query asks for: `2c`, `3`, or none.
pub open spec fn version_asked(query: Seq<char>) -> core::result::Result<Option<i64>, Refusal> {
    match query_value(query, "version"@) {
        None => Ok(None),
        Some(text) => if text == "2c"@ {
            Ok(Some(VERSION_2C))
        } else if text == "3"@ {
            Ok(Some(VERSION_3))
        } else {
            Err(Fault::VersionNotSpoken(text))
        },
    }
}

/// The trap a query names.
pub open spec fn trap_oid_asked(query: Seq<char>) -> core::result::Result<
    Option<Seq<u32>>,
    Refusal,
> {
    match query_value(query, "trap-oid"@) {
        None => Ok(None),
        Some(text) => match oid_of(text) {
            Some(arcs) => Ok(Some(arcs)),
            None => Err(Fault::TrapOidNotDotted(text)),
        },
    }
}

/// What the scheme asks for, done to the object the path names.
pub open spec fn action_asked(
    scheme: Scheme,
    path: Seq<char>,
    target: Seq<char>,
) -> core::result::Result<ActionModel, Refusal> {
    match scheme {
        Scheme::Trap => Ok(ActionModel::Trap),
        Scheme::Inform => Ok(ActionModel::Inform),
        Scheme::SetObject => match oid_of(path) {
            Some(arcs) => if arcs.len() >= 2 {
                Ok(ActionModel::SetObject(arcs))
            } else {
                Err(Fault::SetWithoutOid(target))
            },
            None => Err(Fault::SetWithoutOid(target)),
        },
    }
}

/// The target that the text `target` is.
pub open spec fn target_of(target: Seq<char>) -> core::result::Result<TargetModel, Refusal> {
    match scheme_of(target) {
        Err(e) => Err(e),
        Ok((scheme, rest)) => {
            let (place, query) = parted(rest, '?');
            let (address, path) = parted(place, '/');
            if address.len() == 0 {
                Err(Fault::TargetWithoutHost(target))
            } else {
                match action_asked(scheme, path, target) {
                    Err(e) => Err(e),
                    Ok(action) => match version_asked(query) {
                        Err(e) => Err(e),
                        Ok(version) => match trap_oid_asked(query) {
                            Err(e) => Err(e),
                            Ok(trap_oid) => Ok(
                                TargetModel {
                                    address,
                                    action,
                                    community: query_value(query, "community"@),
                                    version,
                                    user: query_value(query, "user"@),
                                    trap_oid,
                                },
                            ),
                        },
                    },
                }
            }
        },
    }
}

fn read_scheme(target: &[char]) -> (read: Result<(Scheme, &[char])>)
    ensures
        match read {
            Ok(r) => scheme_of(target@) == Ok::<(Scheme, Seq<char>), Refusal>((r.0, r.1@)),
            Err(e) => scheme_of(target@) == Err::<(Scheme, Seq<char>), Refusal>(e@),
        },
{
    if let Some(rest) = without_prefix(target, "snmp+set://") {
        return Ok((Scheme::SetObject, rest));
    }
    if let Some(rest) = without_prefix(target, "snmp+inform://") {
        return Ok((Scheme::Inform, rest));
    }
    if let Some(rest) = without_prefix(target, "snmp+trap://") {
        return Ok((Scheme::Trap, rest));
    }
    if let Some(rest) = without_prefix(target, "snmp://") {
        return Ok((Scheme::Trap, rest));
    }
    if contains_text(target, "://") {
        return Err(Fault::NotSnmpTarget(string_of(target)));
    }
    Ok((Scheme::Trap, target))
}

fn part(s: &[char], c: char) -> (parts: (&[char], &[char]))
    ensures
        (parts.0@, parts.1@) == parted(s@, c),
{
    let i = find(s, c);
    if i < s.len() {
        let head = slice_subrange(s, 0, i);
        let tail = slice_subrange(s, i + 1, s.len());
        assert(head@ =~= s@.take(i as int));
        assert(tail@ =~= s@.skip(i + 1));
        (head, tail)
    } else {
        let tail = slice_subrange(s, i, i);
        assert(tail@ =~= Seq::empty());
        (s, tail)
    }
}

/// What `pair` gives `key`, where it is `key=value`.
fn give<'a>(pair: &'a [char], key: &str) -> (value: Option<&'a [char]>)
    ensures
        match value {
            Some(v) => given_by(pair@, key@) == Some(v@),
            None => given_by(pair@, key@) is None,
        },
{
    match without_prefix(pair, key) {
        None => None,
        Some(rest) => {
            if rest.len() > 0 && rest[0] == '=' {
                let value = slice_subrange(rest, 1, rest.len());
                assert(rest@.take(1) =~= seq!['=']);
                assert(value@ =~= rest@.skip(1));
                Some(value)
            } else {
                assert(rest@.len() > 0 ==> rest@.take(1)[0] == rest@[0]);
                assert(seq!['='][0] == '=');
                None
            }
        },
    }
}

/// What `query` gives `key`.
fn look_up<'a>(query: &'a [char], key: &str) -> (value: Option<&'a [char]>)
    ensures
        match value {
            Some(v) => query_value(query@, key@) == Some(v@),
            None => query_value(query@, key@) is None,
        },
{
    let mut rest = query;
    loop
        invariant
            query_value(query@, key@) == value_among(split(rest@, '&'), key@),
        decreases rest@.len(),
    {
        let i = find(rest, '&');
        let pair = slice_subrange(rest, 0, i);
        assert(pair@ =~= rest@.take(i as int));
        assert(i == rest@.len() ==> pair@ =~= rest@);
        assert(split(rest@, '&')[0] == pair@);
        if let Some(value) = give(pair, key) {
            return Some(value);
        }
        if i == rest.len() {
            assert(split(rest@, '&').skip(1) =~= Seq::empty());
            assert(value_among(Seq::empty(), key@) is None);
            return None;
        }
        let tail = slice_subrange(rest, i + 1, rest.len());
        assert(tail@ =~= rest@.skip(i + 1));
        assert(split(rest@, '&').skip(1) =~= split(tail@, '&'));
        rest = tail;
    }
}

/// What `query` gives `key`, as a text of its own.
fn look_up_text(query: &[char], key: &str) -> (text: Option<String>)
    ensures
        text_there(text) == query_value(query@, key@),
{
    match look_up(query, key) {
        Some(value) => Some(string_of(value)),
        None => None,
    }
}

fn read_version(query: &[char]) -> (version: Result<Option<i64>>)
    ensures
        match version {
            Ok(v) => version_asked(query@) == Ok::<Option<i64>, Refusal>(v),
            Err(e) => version_asked(query@) == Err::<Option<i64>, Refusal>(e@),
        },
{
    match look_up(query, "version") {
        None => Ok(None),
        Some(text) => {
            if is_text(text, "2c") {
                Ok(Some(VERSION_2C))
            } else if is_text(text, "3") {
                Ok(Some(VERSION_3))
            } else {
                Err(Fault::VersionNotSpoken(string_of(text)))
            }
        },
    }
}

fn read_trap_oid(query: &[char]) -> (arcs: Result<Option<Vec<u32>>>)
    ensures
        match arcs {
            Ok(a) => trap_oid_asked(query@) == Ok::<Option<Seq<u32>>, Refusal>(arcs_there(a)),
            Err(e) => trap_oid_asked(query@) == Err::<Option<Seq<u32>>, Refusal>(e@),
        },
{
    match look_up(query, "trap-oid") {
        None => Ok(None),
        Some(text) => match read_dotted(text) {
            Some(arcs) => Ok(Some(arcs)),
            None => Err(Fault::TrapOidNotDotted(string_of(text))),
        },
    }
}

fn read_action(scheme: Scheme, path: &[char], target: &[char]) -> (action: Result<Action>)
    ensures
        match action {
            Ok(a) => action_asked(scheme, path@, target@) == Ok::<ActionModel, Refusal>(a@),
            Err(e) => action_asked(scheme, path@, target@) == Err::<ActionModel, Refusal>(e@),
        },
{
    match scheme {
        Scheme::Trap => Ok(Action::Trap),
        Scheme::Inform => Ok(Action::Inform),
        Scheme::SetObject => match read_dotted(path) {
            Some(arcs) if arcs.len() >= 2 => Ok(Action::SetObject(arcs)),
            _ => Err(Fault::SetWithoutOid(string_of(target))),
        },
    }
}

impl SnmpTarget {
    /// The target that the text is; refused are a scheme that is not
    /// SNMP's, a target with no host, a set without an object, an object or
    /// trap-oid that is not dotted numbers, a version that is neither.
    pub fn parse(target: &str) -> (parsed: Result<Self>)
        ensures
            match parsed {
                Ok(t) => target_of(target@) == Ok::<TargetModel, Refusal>(t@),
                Err(e) => target_of(target@) == Err::<TargetModel, Refusal>(e@),
            },
    {
        let chars = chars_of(target);
        let all = chars.as_slice();
        let (scheme, rest) = match read_scheme(all) {
            Ok(read) => read,
            Err(e) => {
                return Err(e);
            },
        };
        let (place, query) = part(rest, '?');
        let (address, path) = part(place, '/');
        if address.len() == 0 {
            return Err(Fault::TargetWithoutHost(string_of(all)));
        }
        let action = match read_action(scheme, path, all) {
            Ok(action) => action,
            Err(e) => {
                return Err(e);
            },
        };
        let version = match read_version(query) {
            Ok(version) => version,
            Err(e) => {
                return Err(e);
            },
        };
        let trap_oid = match read_trap_oid(query) {
            Ok(trap_oid) => trap_oid,
            Err(e) => {
                return Err(e);
            },
        };
        Ok(
            SnmpTarget {
                address: string_of(address),
                action,
                community: look_up_text(query, "community"),
                version,
                user: look_up_text(query, "user"),
                trap_oid,
            },
        )
    }
}

// --------------------------------------------------------------------- laws

/// `address` is one that a target can carry: there is one, and it opens
/// neither a path nor a query.
pub open spec fn is_address(address: Seq<char>) -> bool {
    &&& address.len() > 0
    &&& !address.contains('/')
    &&& !address.contains('?')
}

/// A target that says nothing but where, and what to do there.
pub open spec fn plain_target(address: Seq<char>, action: ActionModel) -> TargetModel {
    TargetModel { address, action, community: None, version: None, user: None, trap_oid: None }
}

proof fn lemma_nothing_asked()
    ensures
        query_value(Seq::empty(), "version"@) is None,
        query_value(Seq::empty(), "trap-oid"@) is None,
        query_value(Seq::empty(), "community"@) is None,
        query_value(Seq::empty(), "user"@) is None,
{
    reveal_strlit("version");
    reveal_strlit("trap-oid");
    reveal_strlit("community");
    reveal_strlit("user");
    reveal_with_fuel(value_among, 2);
    assert(split(Seq::<char>::empty(), '&') =~= seq![Seq::<char>::empty()]);
}

pub proof fn lemma_no_part(s: Seq<char>, c: char)
    requires
        !s.contains(c),
    ensures
        parted(s, c) == (s, Seq::<char>::empty()),
{
    assert forall|j: int| 0 <= j < s.len() implies #[trigger] s[j] != c by {
        assert(s.contains(s[j]));
    }
    lemma_first_index(s, c, s.len() as int);
}

/// An address alone, or after `snmp://` or `snmp+trap://`, raises a trap
/// there; after `snmp+inform://` it raises an inform; everything else is as
/// configured.
#[verifier::spinoff_prover]
pub proof fn law_plain_targets(address: Seq<char>)
    requires
        is_address(address),
    ensures
        target_of(address) == Ok::<TargetModel, Refusal>(plain_target(address, ActionModel::Trap)),
        target_of("snmp://"@ + address) == Ok::<TargetModel, Refusal>(
            plain_target(address, ActionModel::Trap),
        ),
        target_of("snmp+trap://"@ + address) == Ok::<TargetModel, Refusal>(
            plain_target(address, ActionModel::Trap),
        ),
        target_of("snmp+inform://"@ + address) == Ok::<TargetModel, Refusal>(
            plain_target(address, ActionModel::Inform),
        ),
{
    lemma_schemes(address);
    lemma_nothing_asked();
    lemma_no_part(address, '?');
    lemma_no_part(address, '/');
    assert(scheme_of(address) == Ok::<(Scheme, Seq<char>), Refusal>((Scheme::Trap, address))) by {
        reveal_strlit("snmp+set://");
        reveal_strlit("snmp+inform://");
        reveal_strlit("snmp+trap://");
        reveal_strlit("snmp://");
        reveal_strlit("://");
        if strip_prefix(address, "snmp+set://"@) is Some {
            assert(address.take(11)[10] == '/');
            assert(address.contains(address[10]));
        }
        if strip_prefix(address, "snmp+inform://"@) is Some {
            assert(address.take(14)[13] == '/');
            assert(address.contains(address[13]));
        }
        if strip_prefix(address, "snmp+trap://"@) is Some {
            assert(address.take(12)[11] == '/');
            assert(address.contains(address[11]));
        }
        if strip_prefix(address, "snmp://"@) is Some {
            assert(address.take(7)[6] == '/');
            assert(address.contains(address[6]));
        }
        if has_part(address, "://"@) {
            let i = choose|i: int|
                0 <= i <= address.len() - 3 && #[trigger] address.subrange(i, i + 3) == "://"@;
            assert(address.subrange(i, i + 3)[1] == '/');
            assert(address.contains(address[i + 1]));
        }
    }
}

/// What each scheme asks for, of whatever follows it.
pub proof fn lemma_schemes(rest: Seq<char>)
    ensures
        scheme_of("snmp://"@ + rest) == Ok::<(Scheme, Seq<char>), Refusal>((Scheme::Trap, rest)),
        scheme_of("snmp+trap://"@ + rest) == Ok::<(Scheme, Seq<char>), Refusal>(
            (Scheme::Trap, rest),
        ),
        scheme_of("snmp+inform://"@ + rest) == Ok::<(Scheme, Seq<char>), Refusal>(
            (Scheme::Inform, rest),
        ),
        scheme_of("snmp+set://"@ + rest) == Ok::<(Scheme, Seq<char>), Refusal>(
            (Scheme::SetObject, rest),
        ),
{
    reveal_strlit("snmp+set://");
    reveal_strlit("snmp+inform://");
    reveal_strlit("snmp+trap://");
    reveal_strlit("snmp://");
    let set = "snmp+set://"@ + rest;
    assert(set.take(11) =~= "snmp+set://"@ && set.skip(11) =~= rest);
    let inform = "snmp+inform://"@ + rest;
    assert(inform.take(14) =~= "snmp+inform://"@ && inform.skip(14) =~= rest);
    assert(inform.take(11)[5] == 'i' && "snmp+set://"@[5] == 's');
    let trap = "snmp+trap://"@ + rest;
    assert(trap.take(12) =~= "snmp+trap://"@ && trap.skip(12) =~= rest);
    assert(trap.take(11)[5] == 't' && "snmp+set://"@[5] == 's');
    assert(trap.len() >= 14 ==> trap.take(14)[5] == 't' && "snmp+inform://"@[5] == 'i');
    let plain = "snmp://"@ + rest;
    assert(plain.take(7) =~= "snmp://"@ && plain.skip(7) =~= rest);
    assert(plain.len() >= 11 ==> plain.take(11)[4] == ':' && "snmp+set://"@[4] == '+');
    assert(plain.len() >= 14 ==> plain.take(14)[4] == ':' && "snmp+inform://"@[4] == '+');
    assert(plain.len() >= 12 ==> plain.take(12)[4] == ':' && "snmp+trap://"@[4] == '+');
}

/// Whatever follows `snmp+set://`, it sets an object or is refused.
pub proof fn law_set_scheme_sets(rest: Seq<char>)
    ensures
        target_of("snmp+set://"@ + rest) matches Ok(target) ==> target.action is SetObject,
{
    lemma_schemes(rest);
}

/// Where `address/oid` parts.
proof fn lemma_place_and_path(address: Seq<char>, oid: Seq<u32>)
    requires
        is_address(address),
        oid.len() > 0,
    ensures
        ({
            let rest = address + seq!['/'] + dotted(oid);
            &&& parted(rest, '?') == (rest, Seq::<char>::empty())
            &&& parted(rest, '/') == (address, dotted(oid))
        }),
{
    let path = dotted(oid);
    let rest = address + seq!['/'] + path;
    lemma_dotted(oid);
    assert forall|j: int| 0 <= j < rest.len() implies rest[j] != '?' by {
        if j < address.len() {
            assert(address.contains(address[j]));
        } else if j > address.len() {
            let d = path[j - address.len() - 1];
            assert('0' <= d <= '9' || d == '.');
        }
    }
    lemma_no_part(rest, '?');
    assert forall|j: int| 0 <= j < address.len() implies #[trigger] rest[j] != '/' by {
        assert(address.contains(address[j]));
    }
    lemma_first_index(rest, '/', address.len() as int);
    assert(rest.take(address.len() as int) =~= address);
    assert(rest.skip(address.len() as int + 1) =~= path);
}

/// `snmp+set://address/oid` sets that object there.
#[verifier::spinoff_prover]
pub proof fn law_set_target(address: Seq<char>, oid: Seq<u32>)
    requires
        is_address(address),
        oid.len() >= 2,
    ensures
        target_of("snmp+set://"@ + address + seq!['/'] + dotted(oid)) == Ok::<
            TargetModel,
            Refusal,
        >(plain_target(address, ActionModel::SetObject(oid))),
{
    let path = dotted(oid);
    let rest = address + seq!['/'] + path;
    let target = "snmp+set://"@ + address + seq!['/'] + path;
    assert(target =~= "snmp+set://"@ + rest);
    lemma_schemes(rest);
    lemma_place_and_path(address, oid);
    lemma_nothing_asked();
    law_dotted_reads_back(oid);
    assert(action_asked(Scheme::SetObject, path, target) == Ok::<ActionModel, Refusal>(
        ActionModel::SetObject(oid),
    ));
}

} // verus!
