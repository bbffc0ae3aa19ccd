//! Reading a log line into its fields.
//!
//! A line is `TIME HOST LABEL [FLOW-RULE-ACTION]IN=ifname KEY=VALUE ...`, split on
//! single spaces.

use vstd::prelude::*;
use crate::field_map::FieldMap;
use crate::model::OutOfBounds;
use crate::text::{split, split_on, split_once, split_once_on};

verus! {

/// The flow type, rule id, action and input interface that an annotation such as
/// `[LAN_IN-4001-A]IN=eth1` carries, or `None` where a piece is missing.
pub open spec fn annotation_of(t: Seq<char>) -> Option<(Seq<char>, Seq<char>, Seq<char>, Seq<char>)> {
    match split_once(t, ']') {
        None => None,
        Some((body, rest)) => {
            let inner = split(body, '-');
            let iface = split(rest, '=');
            if inner.len() < 3 || inner[0].len() == 0 || iface.len() < 2 {
                None
            } else {
                Some((inner[0].drop_first(), inner[1], inner[2], iface[1]))
            }
        },
    }
}

/// A `KEY=VALUE` token split at its first `=`, or `None` where it has none.
pub open spec fn pair_of(t: Seq<char>) -> Option<(Seq<char>, Seq<char>)> {
    split_once(t, '=')
}

/// `m` with each token's pair inserted in turn; tokens without `=` change nothing.
pub open spec fn fold_pairs(m: Map<Seq<char>, Seq<char>>, tokens: Seq<Seq<char>>) -> Map<
    Seq<char>,
    Seq<char>,
>
    decreases tokens.len(),
{
    if tokens.len() == 0 {
        m
    } else {
        let before = fold_pairs(m, tokens.drop_last());
        match pair_of(tokens.last()) {
            Some((k, v)) => before.insert(k, v),
            None => before,
        }
    }
}

/// The fields that the first four tokens give.
pub open spec fn header_fields(
    logged_at: Seq<char>,
    flow_type: Seq<char>,
    rule_id: Seq<char>,
    fw_action: Seq<char>,
    in_interface: Seq<char>,
) -> Map<Seq<char>, Seq<char>> {
    Map::empty().insert("LOGGED_AT"@, logged_at).insert("FW_ACTION"@, fw_action).insert(
        "RULE_ID"@,
        rule_id,
    ).insert("FLOW_TYPE"@, flow_type).insert("IN"@, in_interface)
}

/// The fields of a line, or `None` where it has fewer than four tokens or its
/// fourth token is not an annotation.
pub open spec fn fields_of(line: Seq<char>) -> Option<Map<Seq<char>, Seq<char>>> {
    let tokens = split(line, ' ');
    if tokens.len() < 4 {
        None
    } else {
        match annotation_of(tokens[3]) {
            None => None,
            Some((f, r, a, i)) => Some(fold_pairs(header_fields(tokens[0], f, r, a, i), tokens.skip(4))),
        }
    }
}

/// Splits a rule annotation into flow type, rule id, action and input interface.
pub fn parse_brackets(bracket: &str) -> (r: Result<(&str, &str, &str, &str), OutOfBounds>)
    ensures
        match r {
            Ok((f, id, a, i)) => annotation_of(bracket@) == Some((f@, id@, a@, i@)),
            Err(_) => annotation_of(bracket@) is None,
        },
{
    let (body, rest) = match split_once_on(bracket, ']') {
        Some(parts) => parts,
        None => return Err(OutOfBounds),
    };
    let inner = split_on(body, '-');
    let iface = split_on(rest, '=');
    if inner.len() < 3 || iface.len() < 2 {
        return Err(OutOfBounds);
    }
    let first = inner[0];
    let n = first.unicode_len();
    if n == 0 {
        return Err(OutOfBounds);
    }
    let flow_type = first.substring_char(1, n);
    proof {
        assert(flow_type@ =~= first@.drop_first());
    }
    Ok((flow_type, inner[1], inner[2], iface[1]))
}

/// Reads the fields of one log line.
pub fn parse_line(line: &str) -> (r: Result<FieldMap, OutOfBounds>)
    ensures
        match r {
            Ok(m) => m.wf() && fields_of(line@) == Some(m@),
            Err(_) => fields_of(line@) is None,
        },
{
    let tokens = split_on(line, ' ');
    let ghost tv = split(line@, ' ');
    if tokens.len() < 4 {
        return Err(OutOfBounds);
    }
    let (flow_type, rule_id, fw_action, in_interface) = match parse_brackets(tokens[3]) {
        Ok(v) => v,
        Err(e) => {
            return Err(e);
        },
    };
    let mut parsed = FieldMap::new();
    parsed.insert(String::from_str("LOGGED_AT"), tokens[0].to_owned());
    parsed.insert(String::from_str("FW_ACTION"), fw_action.to_owned());
    parsed.insert(String::from_str("RULE_ID"), rule_id.to_owned());
    parsed.insert(String::from_str("FLOW_TYPE"), flow_type.to_owned());
    parsed.insert(String::from_str("IN"), in_interface.to_owned());
    let ghost header = header_fields(tv[0], flow_type@, rule_id@, fw_action@, in_interface@);
    proof {
        assert(parsed@ == header);
        assert(tv.subrange(4, 4) =~= Seq::<Seq<char>>::empty());
    }
    let mut i: usize = 4;
    while i < tokens.len()
        invariant
            4 <= i <= tokens@.len() == tv.len(),
            forall|j: int| 0 <= j < tokens@.len() ==> #[trigger] tokens@[j]@ == tv[j],
            parsed.wf(),
            parsed@ == fold_pairs(header, tv.subrange(4, i as int)),
        decreases tokens.len() - i,
    {
        proof {
            assert(tv.subrange(4, i + 1).drop_last() =~= tv.subrange(4, i as int));
            assert(tv.subrange(4, i + 1).last() == tokens@[i as int]@);
        }
        match split_once_on(tokens[i], '=') {
            Some((k, v)) => {
                parsed.insert(k.to_owned(), v.to_owned());
            },
            None => {},
        }
        i = i + 1;
    }
    proof {
        assert(tv.subrange(4, tv.len() as int) =~= tv.skip(4));
    }
    Ok(parsed)
}

} // verus!
