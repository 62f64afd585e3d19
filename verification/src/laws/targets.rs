//! Targets by their parts: a scheme, an address, an object to set, and a
//! query of pairs.
use vstd::prelude::*;

use crate::ber::oid_of;
use crate::error::{Fault, Refusal};
use crate::target::{given_by, is_address, lemma_no_part, lemma_schemes, parted, query_value};
use crate::target::{scheme_of, target_of, value_among, ActionModel, Scheme, TargetModel};
use crate::text::{has_part, lemma_first_index, split, strip_prefix};

verus! {

/// `key=value`.
pub open spec fn pair_text(pair: (Seq<char>, Seq<char>)) -> Seq<char> {
    pair.0 + seq!['='] + pair.1
}

/// Pairs as a query, an `&` between one and the next.
pub open spec fn query_text(pairs: Seq<(Seq<char>, Seq<char>)>) -> Seq<char>
    decreases pairs.len(),
{
    if pairs.len() == 0 {
        seq![]
    } else if pairs.len() == 1 {
        pair_text(pairs[0])
    } else {
        pair_text(pairs[0]) + seq!['&'] + query_text(pairs.skip(1))
    }
}

/// Each key once and without an `=`, and no `&` in a key or a value.
pub open spec fn is_query(pairs: Seq<(Seq<char>, Seq<char>)>) -> bool {
    &&& forall|i: int|
        0 <= i < pairs.len() ==> {
            &&& !(#[trigger] pairs[i]).0.contains('=')
            &&& !pairs[i].0.contains('&')
            &&& !pairs[i].1.contains('&')
        }
    &&& forall|i: int, j: int|
        0 <= i < j < pairs.len() ==> (#[trigger] pairs[i]).0 != (#[trigger] pairs[j]).0
}

/// `value` is what the pair of `key` gives, and nothing where no pair is of
/// that key.
pub open spec fn gives(
    pairs: Seq<(Seq<char>, Seq<char>)>,
    key: Seq<char>,
    value: Option<Seq<char>>,
) -> bool {
    &&& forall|i: int|
        0 <= i < pairs.len() && (#[trigger] pairs[i]).0 == key ==> value == Some(pairs[i].1)
    &&& (forall|i: int| 0 <= i < pairs.len() ==> (#[trigger] pairs[i]).0 != key) ==> value is None
}

proof fn lemma_pair(pair: (Seq<char>, Seq<char>), key: Seq<char>)
    requires
        !pair.0.contains('='),
        !key.contains('='),
    ensures
        given_by(pair_text(pair), key) == if pair.0 == key {
            Some(pair.1)
        } else {
            None
        },
{
    let text = pair_text(pair);
    let n = key.len() as int;
    if pair.0 == key {
        assert(text.take(n) =~= key);
        let rest = text.skip(n);
        assert(rest =~= seq!['='] + pair.1);
        assert(rest.take(1) =~= seq!['=']);
        assert(rest.skip(1) =~= pair.1);
    } else if strip_prefix(text, key) is Some {
        assert(text.take(n) == key);
        if n > pair.0.len() {
            let i = pair.0.len() as int;
            assert(text[i] == '=');
            assert(text.take(n)[i] == '=');
            assert(key.contains(key[i]));
        } else {
            if n == pair.0.len() {
                assert(text.take(n) =~= pair.0);
            }
            let rest = text.skip(n);
            assert(rest[0] == pair.0[n]);
            assert(pair.0.contains(pair.0[n]));
            assert(rest.take(1)[0] == rest[0]);
            assert(seq!['='][0] == '=');
        }
    }
}

proof fn lemma_split_query(pairs: Seq<(Seq<char>, Seq<char>)>)
    requires
        pairs.len() > 0,
        is_query(pairs),
    ensures
        split(query_text(pairs), '&') == Seq::new(pairs.len(), |i: int| pair_text(pairs[i])),
    decreases pairs.len(),
{
    let parts = Seq::new(pairs.len(), |i: int| pair_text(pairs[i]));
    let first = pair_text(pairs[0]);
    let s = query_text(pairs);
    assert forall|j: int| 0 <= j < first.len() implies #[trigger] first[j] != '&' by {
        if j < pairs[0].0.len() {
            assert(pairs[0].0.contains(pairs[0].0[j]));
        } else if j > pairs[0].0.len() {
            let v = pairs[0].1;
            let at = j - pairs[0].0.len() - 1;
            assert(v.contains(v[at]));
        }
    }
    if pairs.len() == 1 {
        lemma_first_index(s, '&', s.len() as int);
        assert(parts =~= seq![first]);
    } else {
        let rest = pairs.skip(1);
        lemma_tail(pairs);
        lemma_split_query(rest);
        assert forall|j: int| 0 <= j < first.len() implies #[trigger] s[j] != '&' by {
            assert(s[j] == first[j]);
        }
        assert(s[first.len() as int] == '&');
        lemma_first_index(s, '&', first.len() as int);
        assert(s.take(first.len() as int) =~= first);
        assert(s.skip(first.len() as int + 1) =~= query_text(rest));
        assert(split(s, '&') =~= parts);
    }
}

proof fn lemma_tail(pairs: Seq<(Seq<char>, Seq<char>)>)
    requires
        pairs.len() > 0,
        is_query(pairs),
    ensures
        is_query(pairs.skip(1)),
{
    let rest = pairs.skip(1);
    assert forall|i: int| 0 <= i < rest.len() implies {
        &&& !(#[trigger] rest[i]).0.contains('=')
        &&& !rest[i].0.contains('&')
        &&& !rest[i].1.contains('&')
    } by {
        assert(rest[i] == pairs[i + 1]);
    }
    assert forall|i: int, j: int| 0 <= i < j < rest.len() implies (#[trigger] rest[i]).0 != (
    #[trigger] rest[j]).0 by {
        assert(rest[i] == pairs[i + 1]);
        assert(rest[j] == pairs[j + 1]);
    }
}

proof fn lemma_among(pairs: Seq<(Seq<char>, Seq<char>)>, key: Seq<char>)
    requires
        is_query(pairs),
        !key.contains('='),
    ensures
        gives(
            pairs,
            key,
            value_among(Seq::new(pairs.len(), |i: int| pair_text(pairs[i])), key),
        ),
    decreases pairs.len(),
{
    let parts = Seq::new(pairs.len(), |i: int| pair_text(pairs[i]));
    if pairs.len() > 0 {
        let rest = pairs.skip(1);
        lemma_tail(pairs);
        lemma_among(rest, key);
        lemma_pair(pairs[0], key);
        assert(parts[0] == pair_text(pairs[0]));
        assert(parts.skip(1) =~= Seq::new(rest.len(), |i: int| pair_text(rest[i])));
        let value = value_among(parts, key);
        assert forall|i: int| 0 <= i < pairs.len() && (#[trigger] pairs[i]).0 == key implies value
            == Some(pairs[i].1) by {
            if i > 0 {
                assert(rest[i - 1] == pairs[i]);
                assert(pairs[0].0 != pairs[i].0);
            }
        }
        if forall|i: int| 0 <= i < pairs.len() ==> (#[trigger] pairs[i]).0 != key {
            assert(pairs[0].0 != key);
            assert forall|i: int| 0 <= i < rest.len() implies (#[trigger] rest[i]).0 != key by {
                assert(rest[i] == pairs[i + 1]);
            }
        }
    }
}

/// A query gives each key what its own pair says, whatever the other pairs
/// are and in whatever order.
pub proof fn law_query_gives_each_key_its_own(pairs: Seq<(Seq<char>, Seq<char>)>, key: Seq<char>)
    requires
        is_query(pairs),
        key.len() > 0,
        !key.contains('='),
    ensures
        gives(pairs, key, query_value(query_text(pairs), key)),
{
    if pairs.len() > 0 {
        lemma_split_query(pairs);
        lemma_among(pairs, key);
    } else {
        let none = Seq::<char>::empty();
        lemma_first_index(none, '&', 0);
        assert(split(none, '&') =~= seq![none]);
        reveal_with_fuel(value_among, 2);
        assert(strip_prefix(none, key) is None);
    }
}

proof fn lemma_keys()
    ensures
        "community"@.len() > 0 && !"community"@.contains('='),
        "version"@.len() > 0 && !"version"@.contains('='),
        "user"@.len() > 0 && !"user"@.contains('='),
        "trap-oid"@.len() > 0 && !"trap-oid"@.contains('='),
{
    reveal_strlit("community");
    reveal_strlit("version");
    reveal_strlit("user");
    reveal_strlit("trap-oid");
}

/// What `target_of` makes of a text whose scheme, place and query are known.
proof fn lemma_target_parts(
    prefix: Seq<char>,
    scheme: Scheme,
    place: Seq<char>,
    query: Seq<char>,
)
    requires
        scheme_of(prefix + (place + seq!['?'] + query)) == Ok::<(Scheme, Seq<char>), Refusal>(
            (scheme, place + seq!['?'] + query),
        ),
        !place.contains('?'),
    ensures
        parted(place + seq!['?'] + query, '?') == (place, query),
{
    let rest = place + seq!['?'] + query;
    assert forall|j: int| 0 <= j < place.len() implies #[trigger] rest[j] != '?' by {
        assert(rest[j] == place[j]);
        assert(place.contains(place[j]));
    }
    lemma_first_index(rest, '?', place.len() as int);
    assert(rest.take(place.len() as int) =~= place);
    assert(rest.skip(place.len() as int + 1) =~= query);
}

/// The scheme `prefix` writes.
pub open spec fn writes_scheme(prefix: Seq<char>, scheme: Scheme) -> bool {
    ||| prefix == "snmp://"@ && scheme == Scheme::Trap
    ||| prefix == "snmp+trap://"@ && scheme == Scheme::Trap
    ||| prefix == "snmp+inform://"@ && scheme == Scheme::Inform
    ||| prefix == "snmp+set://"@ && scheme == Scheme::SetObject
}

/// A target is read part by part: the address is what is before the path;
/// the action is what the scheme says, and a set's object is the path; the
/// community, the user, the version and the trap are each what its own pair
/// gives, and none where it has no pair.
#[verifier::spinoff_prover]
pub proof fn law_target_is_read_part_by_part(
    prefix: Seq<char>,
    scheme: Scheme,
    address: Seq<char>,
    path: Seq<char>,
    pairs: Seq<(Seq<char>, Seq<char>)>,
    version: Option<Seq<char>>,
    trap_oid: Option<Seq<char>>,
)
    requires
        writes_scheme(prefix, scheme),
        address.len() > 0,
        !address.contains('/'),
        !address.contains('?'),
        !path.contains('?'),
        scheme is SetObject ==> (oid_of(path) matches Some(arcs) && arcs.len() >= 2),
        is_query(pairs),
        gives(pairs, "version"@, version),
        gives(pairs, "trap-oid"@, trap_oid),
    ensures
        ({
            let text = prefix + (address + seq!['/'] + path + seq!['?'] + query_text(pairs));
            let good_version = version matches Some(v) ==> v == "2c"@ || v == "3"@;
            let good_trap = trap_oid matches Some(t) ==> oid_of(t) is Some;
            &&& good_version && good_trap ==> {
                &&& target_of(text) matches Ok(target)
                &&& target.address == address
                &&& target.action == match scheme {
                    Scheme::Trap => ActionModel::Trap,
                    Scheme::Inform => ActionModel::Inform,
                    Scheme::SetObject => ActionModel::SetObject(oid_of(path)->0),
                }
                &&& gives(pairs, "community"@, target.community)
                &&& gives(pairs, "user"@, target.user)
                &&& target.version == match version {
                    None => None,
                    Some(v) => Some(
                        if v == "3"@ {
                            3i64
                        } else {
                            1i64
                        },
                    ),
                }
                &&& target.trap_oid == match trap_oid {
                    None => None,
                    Some(t) => oid_of(t),
                }
            }
            &&& !good_version ==> target_of(text) == Err::<TargetModel, Refusal>(
                Fault::VersionNotSpoken(version->0),
            )
            &&& good_version && !good_trap ==> target_of(text) == Err::<TargetModel, Refusal>(
                Fault::TrapOidNotDotted(trap_oid->0),
            )
        }),
{
    let query = query_text(pairs);
    let place = address + seq!['/'] + path;
    let rest = place + seq!['?'] + query;
    lemma_schemes(rest);
    assert(!place.contains('?')) by {
        assert forall|j: int| 0 <= j < place.len() implies #[trigger] place[j] != '?' by {
            if j < address.len() {
                assert(address.contains(address[j]));
            } else if j > address.len() {
                let at = j - address.len() - 1;
                assert(path.contains(path[at]));
            }
        }
    }
    lemma_target_parts(prefix, scheme, place, query);
    assert(parted(place, '/') == (address, path)) by {
        assert forall|j: int| 0 <= j < address.len() implies #[trigger] place[j] != '/' by {
            assert(address.contains(address[j]));
        }
        lemma_first_index(place, '/', address.len() as int);
        assert(place.take(address.len() as int) =~= address);
        assert(place.skip(address.len() as int + 1) =~= path);
    }
    lemma_query_fields(pairs, version, trap_oid);
}

proof fn lemma_same_given(
    pairs: Seq<(Seq<char>, Seq<char>)>,
    key: Seq<char>,
    a: Option<Seq<char>>,
    b: Option<Seq<char>>,
)
    requires
        gives(pairs, key, a),
        gives(pairs, key, b),
    ensures
        a == b,
{
    if exists|i: int| 0 <= i < pairs.len() && (#[trigger] pairs[i]).0 == key {
        let i = choose|i: int| 0 <= i < pairs.len() && (#[trigger] pairs[i]).0 == key;
        assert(pairs[i].0 == key);
    }
}

proof fn lemma_query_fields(
    pairs: Seq<(Seq<char>, Seq<char>)>,
    version: Option<Seq<char>>,
    trap_oid: Option<Seq<char>>,
)
    requires
        is_query(pairs),
        gives(pairs, "version"@, version),
        gives(pairs, "trap-oid"@, trap_oid),
    ensures
        query_value(query_text(pairs), "version"@) == version,
        query_value(query_text(pairs), "trap-oid"@) == trap_oid,
        gives(pairs, "community"@, query_value(query_text(pairs), "community"@)),
        gives(pairs, "user"@, query_value(query_text(pairs), "user"@)),
        "2c"@ != "3"@,
{
    lemma_keys();
    let query = query_text(pairs);
    law_query_gives_each_key_its_own(pairs, "version"@);
    law_query_gives_each_key_its_own(pairs, "trap-oid"@);
    law_query_gives_each_key_its_own(pairs, "community"@);
    law_query_gives_each_key_its_own(pairs, "user"@);
    lemma_same_given(pairs, "version"@, version, query_value(query, "version"@));
    lemma_same_given(pairs, "trap-oid"@, trap_oid, query_value(query, "trap-oid"@));
    reveal_strlit("2c");
    reveal_strlit("3");
    assert("2c"@.len() != "3"@.len());
}

/// Without a path a target is read as with an empty one, but that a set has
/// then no object; without a scheme, where no `://` is in it, as a trap.
#[verifier::spinoff_prover]
pub proof fn law_target_without_a_path(
    prefix: Seq<char>,
    scheme: Scheme,
    address: Seq<char>,
    pairs: Seq<(Seq<char>, Seq<char>)>,
)
    requires
        writes_scheme(prefix, scheme),
        address.len() > 0,
        !address.contains('/'),
        !address.contains('?'),
        is_query(pairs),
    ensures
        ({
            let query = seq!['?'] + query_text(pairs);
            let text = prefix + (address + query);
            &&& scheme is SetObject ==> target_of(text) == Err::<TargetModel, Refusal>(
                Fault::SetWithoutOid(text),
            )
            &&& !(scheme is SetObject) ==> target_of(text) == target_of(
                prefix + (address + seq!['/'] + query),
            )
            &&& !has_part(address + query, "://"@) ==> target_of(address + query) == target_of(
                "snmp://"@ + (address + query),
            )
        }),
{
    let q = query_text(pairs);
    let rest = address + (seq!['?'] + q);
    assert(rest =~= address + seq!['?'] + q);
    lemma_schemes(rest);
    lemma_target_parts(prefix, scheme, address, q);
    lemma_no_part(address, '/');
    assert(oid_of(Seq::empty()) is None) by {
        let none = Seq::<char>::empty();
        assert(!none.contains('.'));
        crate::laws::streams::law_dotted_is_read(none, none);
        assert(crate::text::u32_of(none) is None);
    }
    let place = address + seq!['/'];
    let longer = address + seq!['/'] + (seq!['?'] + q);
    assert(longer =~= place + seq!['?'] + q);
    lemma_schemes(longer);
    assert(!place.contains('?')) by {
        assert forall|j: int| 0 <= j < place.len() implies #[trigger] place[j] != '?' by {
            if j < address.len() {
                assert(address.contains(address[j]));
            }
        }
    }
    lemma_target_parts(prefix, scheme, place, q);
    assert(parted(place, '/') == (address, Seq::<char>::empty())) by {
        assert forall|j: int| 0 <= j < address.len() implies #[trigger] place[j] != '/' by {
            assert(address.contains(address[j]));
        }
        lemma_first_index(place, '/', address.len() as int);
        assert(place.take(address.len() as int) =~= address);
        assert(place.skip(address.len() as int + 1) =~= Seq::<char>::empty());
    }
    if !has_part(rest, "://"@) {
        lemma_no_scheme(rest);
    }
}

/// A text with no `://` in it opens with none of the schemes.
proof fn lemma_no_scheme(text: Seq<char>)
    requires
        !has_part(text, "://"@),
    ensures
        scheme_of(text) == Ok::<(Scheme, Seq<char>), Refusal>((Scheme::Trap, text)),
{
    reveal_strlit("://");
    reveal_strlit("snmp+set://");
    reveal_strlit("snmp+inform://");
    reveal_strlit("snmp+trap://");
    reveal_strlit("snmp://");
    if strip_prefix(text, "snmp+set://"@) is Some {
        assert(text.subrange(8, 11) =~= text.take(11).subrange(8, 11));
        assert(text.subrange(8, 8int + 3) =~= "://"@);
    }
    if strip_prefix(text, "snmp+inform://"@) is Some {
        assert(text.subrange(11, 14) =~= text.take(14).subrange(11, 14));
        assert(text.subrange(11, 11int + 3) =~= "://"@);
    }
    if strip_prefix(text, "snmp+trap://"@) is Some {
        assert(text.subrange(9, 12) =~= text.take(12).subrange(9, 12));
        assert(text.subrange(9, 9int + 3) =~= "://"@);
    }
    if strip_prefix(text, "snmp://"@) is Some {
        assert(text.subrange(4, 7) =~= text.take(7).subrange(4, 7));
        assert(text.subrange(4, 4int + 3) =~= "://"@);
    }
}

/// What has no address is refused.
pub proof fn law_target_without_an_address(
    prefix: Seq<char>,
    scheme: Scheme,
    rest: Seq<char>,
)
    requires
        writes_scheme(prefix, scheme),
        rest.len() == 0 || rest[0] == '/' || rest[0] == '?',
    ensures
        target_of(prefix + rest) == Err::<TargetModel, Refusal>(
            Fault::TargetWithoutHost(prefix + rest),
        ),
{
    lemma_schemes(rest);
    let (place, _) = parted(rest, '?');
    if rest.len() > 0 {
        if rest[0] == '?' {
            lemma_first_index(rest, '?', 0);
            assert(place =~= Seq::<char>::empty());
        } else {
            crate::text::lemma_first_index_is(rest, '?');
            let i = crate::text::first_index(rest, '?') as int;
            assert(i > 0);
            assert(place.len() > 0);
            assert(place[0] == '/');
            lemma_first_index(place, '/', 0);
            assert(place.take(0) =~= Seq::<char>::empty());
        }
    }
}

/// Before a `://` there is one of four schemes, or the target is refused.
pub proof fn law_other_schemes_are_refused(other: Seq<char>, rest: Seq<char>)
    requires
        !other.contains(':'),
        other != "snmp"@,
        other != "snmp+trap"@,
        other != "snmp+inform"@,
        other != "snmp+set"@,
    ensures
        target_of(other + "://"@ + rest) == Err::<TargetModel, Refusal>(
            Fault::NotSnmpTarget(other + "://"@ + rest),
        ),
{
    reveal_strlit("://");
    reveal_strlit("snmp+set://");
    reveal_strlit("snmp+inform://");
    reveal_strlit("snmp+trap://");
    reveal_strlit("snmp://");
    reveal_strlit("snmp");
    reveal_strlit("snmp+trap");
    reveal_strlit("snmp+inform");
    reveal_strlit("snmp+set");
    let text = other + "://"@ + rest;
    let n = other.len() as int;
    assert(text.subrange(n, n + 3) =~= "://"@);
    assert(has_part(text, "://"@));
    lemma_scheme_differs(other, rest, "snmp+set"@);
    lemma_scheme_differs(other, rest, "snmp+inform"@);
    lemma_scheme_differs(other, rest, "snmp+trap"@);
    lemma_scheme_differs(other, rest, "snmp"@);
    assert("snmp+set"@ + "://"@ =~= "snmp+set://"@);
    assert("snmp+inform"@ + "://"@ =~= "snmp+inform://"@);
    assert("snmp+trap"@ + "://"@ =~= "snmp+trap://"@);
    assert("snmp"@ + "://"@ =~= "snmp://"@);
}

proof fn lemma_scheme_differs(other: Seq<char>, rest: Seq<char>, name: Seq<char>)
    requires
        !other.contains(':'),
        !name.contains(':'),
        other != name,
    ensures
        strip_prefix(other + "://"@ + rest, name + "://"@) is None,
{
    reveal_strlit("://");
    let text = other + "://"@ + rest;
    let prefix = name + "://"@;
    if strip_prefix(text, prefix) is Some {
        let head = text.take(prefix.len() as int);
        assert(head == prefix);
        let n = name.len() as int;
        assert(prefix[n] == ':');
        assert(text[n] == head[n]);
        if n < other.len() {
            assert(other.contains(other[n]));
        } else if n > other.len() {
            let m = other.len() as int;
            assert(text[m] == ':');
            assert(head[m] == text[m]);
            assert(name.contains(name[m]));
        } else {
            assert(other =~= name) by {
                assert forall|j: int| 0 <= j < n implies other[j] == name[j] by {
                    assert(head[j] == text[j]);
                }
            }
        }
    }
}

/// A set with no path that is an identifier of two arcs is refused.
pub proof fn law_set_without_an_object(
    address: Seq<char>,
    path: Seq<char>,
    query: Seq<char>,
)
    requires
        address.len() > 0,
        !address.contains('/'),
        !address.contains('?'),
        !path.contains('?'),
        oid_of(path) matches Some(arcs) ==> arcs.len() < 2,
    ensures
        ({
            let text = "snmp+set://"@ + (address + seq!['/'] + path + seq!['?'] + query);
            target_of(text) == Err::<TargetModel, Refusal>(Fault::SetWithoutOid(text))
        }),
{
    let place = address + seq!['/'] + path;
    let rest = place + seq!['?'] + query;
    lemma_schemes(rest);
    assert forall|j: int| 0 <= j < place.len() implies #[trigger] place[j] != '?' by {
        if j < address.len() {
            assert(address.contains(address[j]));
        } else if j > address.len() {
            let at = j - address.len() - 1;
            assert(path.contains(path[at]));
        }
    }
    lemma_target_parts("snmp+set://"@, Scheme::SetObject, place, query);
    assert forall|j: int| 0 <= j < address.len() implies #[trigger] place[j] != '/' by {
        assert(address.contains(address[j]));
    }
    lemma_first_index(place, '/', address.len() as int);
    assert(place.take(address.len() as int) =~= address);
    assert(place.skip(address.len() as int + 1) =~= path);
}

/// Without a query a target is read as with an empty one.
pub proof fn law_target_without_a_query(prefix: Seq<char>, scheme: Scheme, place: Seq<char>)
    requires
        writes_scheme(prefix, scheme),
        !place.contains('?'),
    ensures
        match (target_of(prefix + place), target_of(prefix + (place + seq!['?']))) {
            (Ok(a), Ok(b)) => a == b,
            (Err(_), Err(_)) => true,
            _ => false,
        },
{
    let none = Seq::<char>::empty();
    lemma_schemes(place);
    lemma_schemes(place + seq!['?']);
    lemma_no_part(place, '?');
    assert(place + seq!['?'] + none =~= place + seq!['?']);
    lemma_target_parts(prefix, scheme, place, none);
}

proof fn lemma_given(part: Seq<char>, key: Seq<char>, value: Seq<char>)
    ensures
        part == key + seq!['='] + value <==> given_by(part, key) == Some(value),
{
    let n = key.len() as int;
    let whole = key + seq!['='] + value;
    assert(whole.take(n) =~= key);
    assert(whole.skip(n) =~= seq!['='] + value);
    assert((seq!['='] + value).take(1) =~= seq!['=']);
    assert((seq!['='] + value).skip(1) =~= value);
    if given_by(part, key) == Some(value) {
        let rest = part.skip(n);
        assert(part =~= part.take(n) + rest);
        assert(rest =~= rest.take(1) + rest.skip(1));
        assert(part =~= whole);
    }
}

/// The first part of a query gives `key` what is after its `key=`, whatever
/// parts are after it; where it does not open with `key=`, the parts after
/// it decide, and where there are none, nothing is given.
pub proof fn law_first_part_of_a_query(
    part: Seq<char>,
    rest: Seq<char>,
    key: Seq<char>,
    value: Seq<char>,
)
    requires
        !part.contains('&'),
    ensures
        part == key + seq!['='] + value ==> {
            &&& query_value(part, key) == Some(value)
            &&& query_value(part + seq!['&'] + rest, key) == Some(value)
        },
        (forall|other: Seq<char>| part != #[trigger] (key + seq!['='] + other)) ==> {
            &&& query_value(part, key) is None
            &&& query_value(part + seq!['&'] + rest, key) == query_value(rest, key)
        },
{
    let s = part + seq!['&'] + rest;
    assert forall|j: int| 0 <= j < part.len() implies #[trigger] part[j] != '&' by {
        assert(part.contains(part[j]));
    }
    lemma_first_index(part, '&', part.len() as int);
    assert(split(part, '&') =~= seq![part]);
    assert(split(part, '&').skip(1) =~= Seq::empty());
    assert forall|j: int| 0 <= j < part.len() implies #[trigger] s[j] != '&' by {
        assert(s[j] == part[j]);
    }
    lemma_first_index(s, '&', part.len() as int);
    assert(s.take(part.len() as int) =~= part);
    assert(s.skip(part.len() as int + 1) =~= rest);
    let parts = split(s, '&');
    assert(parts[0] == part);
    assert(parts.skip(1) =~= split(rest, '&'));
    lemma_given(part, key, value);
    assert(value_among(Seq::empty(), key) is None);
    if forall|other: Seq<char>| part != #[trigger] (key + seq!['='] + other) {
        if let Some(other) = given_by(part, key) {
            lemma_given(part, key, other);
            assert(part == key + seq!['='] + other);
        }
    }
}

/// Of whatever query, a target has the community and the user that it gives;
/// it has the version and the trap that it gives where they read as such,
/// and is refused where they do not, and else only for what is before the
/// query.
pub proof fn law_target_has_what_its_query_gives(
    prefix: Seq<char>,
    scheme: Scheme,
    place: Seq<char>,
    query: Seq<char>,
)
    requires
        writes_scheme(prefix, scheme),
        !place.contains('?'),
    ensures
        ({
            let version = query_value(query, "version"@);
            let trap_oid = query_value(query, "trap-oid"@);
            match target_of(prefix + (place + seq!['?'] + query)) {
                Ok(target) => {
                    &&& target.community == query_value(query, "community"@)
                    &&& target.user == query_value(query, "user"@)
                    &&& target.version is None <==> version is None
                    &&& target.version matches Some(v) ==> {
                        ||| v == 1 && version == Some("2c"@)
                        ||| v == 3 && version == Some("3"@)
                    }
                    &&& target.trap_oid == match trap_oid {
                        None => None,
                        Some(text) => oid_of(text),
                    }
                    &&& trap_oid matches Some(text) ==> oid_of(text) is Some
                },
                Err(Fault::VersionNotSpoken(text)) => {
                    version == Some(text) && text != "2c"@ && text != "3"@
                },
                Err(Fault::TrapOidNotDotted(text)) => {
                    trap_oid == Some(text) && oid_of(text) is None
                },
                Err(Fault::TargetWithoutHost(_)) => place.len() == 0 || place[0] == '/',
                Err(Fault::SetWithoutOid(_)) => {
                    &&& scheme is SetObject
                    &&& forall|address: Seq<char>, path: Seq<char>|
                        place == #[trigger] (address + seq!['/'] + path) && !address.contains('/')
                            ==> (oid_of(path) matches Some(arcs) ==> arcs.len() < 2)
                },
                Err(_) => false,
            }
        }),
{
    let rest = place + seq!['?'] + query;
    lemma_schemes(rest);
    lemma_target_parts(prefix, scheme, place, query);
    crate::text::lemma_first_index_is(place, '/');
    assert forall|address: Seq<char>, path: Seq<char>|
        place == #[trigger] (address + seq!['/'] + path) && !address.contains(
            '/',
        ) implies parted(place, '/') == (address, path) by {
        assert forall|j: int| 0 <= j < address.len() implies #[trigger] place[j] != '/' by {
            assert(place[j] == address[j]);
            assert(address.contains(address[j]));
        }
        lemma_first_index(place, '/', address.len() as int);
        assert(place.take(address.len() as int) =~= address);
        assert(place.skip(address.len() as int + 1) =~= path);
    }
}

/// Where no `://` is in a text, it is read as after `snmp://`, but that it
/// is itself what is refused where it has no address.
pub proof fn law_target_without_a_scheme(text: Seq<char>)
    requires
        forall|i: int|
            0 <= i && i + 3 <= text.len() ==> #[trigger] text.subrange(i, i + 3) != "://"@,
    ensures
        match (target_of(text), target_of("snmp://"@ + text)) {
            (Ok(a), Ok(b)) => a == b,
            (Err(a), Err(b)) => a == b || a == Refusal::TargetWithoutHost(text),
            _ => false,
        },
{
    reveal_strlit("://");
    assert(!has_part(text, "://"@));
    lemma_no_scheme(text);
    lemma_schemes(text);
}

/// A text with `://` somewhere in it that opens with none of the four
/// schemes is refused.
pub proof fn law_no_fifth_scheme(text: Seq<char>, i: int)
    requires
        0 <= i,
        i + 3 <= text.len(),
        text.subrange(i, i + 3) == "://"@,
        forall|rest: Seq<char>| text != #[trigger] ("snmp://"@ + rest),
        forall|rest: Seq<char>| text != #[trigger] ("snmp+trap://"@ + rest),
        forall|rest: Seq<char>| text != #[trigger] ("snmp+inform://"@ + rest),
        forall|rest: Seq<char>| text != #[trigger] ("snmp+set://"@ + rest),
    ensures
        target_of(text) == Err::<TargetModel, Refusal>(Fault::NotSnmpTarget(text)),
{
    reveal_strlit("://");
    assert(text.subrange(i, i + "://"@.len()) == "://"@);
    assert(has_part(text, "://"@));
    lemma_stripped(text, "snmp://"@);
    lemma_stripped(text, "snmp+trap://"@);
    lemma_stripped(text, "snmp+inform://"@);
    lemma_stripped(text, "snmp+set://"@);
}

proof fn lemma_stripped(text: Seq<char>, prefix: Seq<char>)
    ensures
        strip_prefix(text, prefix) matches Some(rest) ==> text == prefix + rest,
{
    if let Some(rest) = strip_prefix(text, prefix) {
        assert(text =~= text.take(prefix.len() as int) + rest);
    }
}

/// Which texts are addresses: those that are not empty and open neither a
/// path nor a query.
pub proof fn law_addresses(address: Seq<char>)
    ensures
        is_address(address) == (address.len() > 0 && !address.contains('/') && !address.contains(
            '?',
        )),
{
}

} // verus!
