//! The wizard's cookies, which carry its session from one request to the next.
use vstd::prelude::*;
use vstd::string::*;

use crate::order::pairs;
use crate::text::{cut, join, joined, same, split_once, texts};
use crate::up::page::{head, up_to};

verus! {

/// The cookies without one by this name.
pub open spec fn without(jar: Seq<(Seq<char>, Seq<char>)>, name: Seq<char>) -> Seq<
    (Seq<char>, Seq<char>),
>
    decreases jar.len(),
{
    if jar.len() == 0 {
        Seq::empty()
    } else if jar.last().0 == name {
        without(jar.drop_last(), name)
    } else {
        without(jar.drop_last(), name).push(jar.last())
    }
}

/// The cookies after one was set, as its header says: a name, a value, and
/// what else is said of it, which is not kept.
pub open spec fn set(jar: Seq<(Seq<char>, Seq<char>)>, header: Seq<char>) -> Seq<
    (Seq<char>, Seq<char>),
> {
    match split_once(header, "="@) {
        Some((name, rest)) => without(jar, name).push((name, up_to(rest, ";"@))),
        None => jar,
    }
}

/// The cookies as a request sends them.
pub open spec fn sent(jar: Seq<(Seq<char>, Seq<char>)>) -> Seq<char> {
    join(Seq::new(jar.len(), |i: int| jar[i].0 + "="@ + jar[i].1), "; "@)
}

/// Cookies, each name once.
#[derive(Debug)]
pub struct Jar {
    cookies: Vec<(String, String)>,
}

impl View for Jar {
    type V = Seq<(Seq<char>, Seq<char>)>;

    closed spec fn view(&self) -> Seq<(Seq<char>, Seq<char>)> {
        pairs(self.cookies@)
    }
}

impl Jar {
    /// No cookies.
    pub fn new() -> (jar: Jar)
        ensures
            jar@ == Seq::<(Seq<char>, Seq<char>)>::empty(),
    {
        let jar = Jar { cookies: Vec::new() };
        assert(jar@ =~= Seq::<(Seq<char>, Seq<char>)>::empty());
        jar
    }

    /// A cookie was set, as this header says.
    pub fn keep(&mut self, header: &str)
        ensures
            final(self)@ == set(old(self)@, header@),
    {
        let (name, rest) = match cut(header, "=") {
            Some(parts) => parts,
            None => {
                return;
            },
        };
        let held = head(rest.as_str(), ";");
        let ghost all = self@;
        let mut kept: Vec<(String, String)> = Vec::new();
        let mut i: usize = 0;
        assert(pairs(kept@) =~= Seq::<(Seq<char>, Seq<char>)>::empty());
        assert(all.take(0) =~= Seq::<(Seq<char>, Seq<char>)>::empty());
        while i < self.cookies.len()
            invariant
                i <= self.cookies@.len(),
                all == pairs(self.cookies@),
                pairs(kept@) == without(all.take(i as int), name@),
            decreases self.cookies@.len() - i,
        {
            assert(all.take(i + 1).drop_last() =~= all.take(i as int));
            assert(all.take(i + 1).last() == all[i as int]);
            let ghost before = pairs(kept@);
            if !same(self.cookies[i].0.as_str(), name.as_str()) {
                kept.push((self.cookies[i].0.clone(), self.cookies[i].1.clone()));
                assert(pairs(kept@) =~= before.push(all[i as int]));
            }
            i += 1;
        }
        assert(all.take(i as int) =~= all);
        let ghost before = pairs(kept@);
        let ghost cookie = (name@, held@);
        kept.push((name, held));
        assert(pairs(kept@) =~= before.push(cookie));
        self.cookies = kept;
    }

    /// The cookies as a request sends them, if there are any.
    pub fn header(&self) -> (r: Option<String>)
        ensures
            match r {
                Some(header) => self@.len() > 0 && header@ == sent(self@),
                None => self@.len() == 0,
            },
    {
        if self.cookies.len() == 0 {
            return None;
        }
        let ghost all = Seq::new(self@.len(), |i: int| self@[i].0 + "="@ + self@[i].1);
        let mut parts: Vec<String> = Vec::new();
        let mut i: usize = 0;
        while i < self.cookies.len()
            invariant
                i <= self.cookies@.len(),
                all == Seq::new(self@.len(), |i: int| self@[i].0 + "="@ + self@[i].1),
                texts(parts@) =~= all.take(i as int),
            decreases self.cookies@.len() - i,
        {
            let ghost before = texts(parts@);
            let mut cookie = self.cookies[i].0.clone();
            cookie.append("=");
            cookie.append(self.cookies[i].1.as_str());
            assert(cookie@ == all[i as int]);
            parts.push(cookie);
            assert(texts(parts@) =~= before.push(all[i as int]));
            i += 1;
        }
        assert(all.take(i as int) =~= all);
        Some(joined(&parts, "; "))
    }
}

/// No name twice.
pub open spec fn each_once(jar: Seq<(Seq<char>, Seq<char>)>) -> bool {
    forall|i: int, j: int|
        0 <= i < j < jar.len() ==> (#[trigger] jar[i]).0 != (#[trigger] jar[j]).0
}

proof fn lemma_without(jar: Seq<(Seq<char>, Seq<char>)>, name: Seq<char>)
    ensures
        forall|i: int|
            0 <= i < without(jar, name).len() ==> (#[trigger] without(jar, name)[i]).0 != name
                && jar.contains(without(jar, name)[i]),
        forall|i: int|
            0 <= i < jar.len() && (#[trigger] jar[i]).0 != name ==> without(jar, name).contains(
                jar[i],
            ),
        each_once(jar) ==> each_once(without(jar, name)),
    decreases jar.len(),
{
    if jar.len() > 0 {
        let fewer = jar.drop_last();
        lemma_without(fewer, name);
        let left = without(fewer, name);
        let all = without(jar, name);
        assert(jar[jar.len() - 1] == jar.last());
        assert forall|i: int| 0 <= i < all.len() implies (#[trigger] all[i]).0 != name
            && jar.contains(all[i]) by {
            if i < left.len() {
                let k = choose|k: int| 0 <= k < fewer.len() && fewer[k] == left[i];
                assert(jar[k] == all[i]);
            }
        }
        assert forall|i: int| 0 <= i < jar.len() && (#[trigger] jar[i]).0 != name implies all.contains(
            jar[i],
        ) by {
            if i < fewer.len() {
                assert(fewer[i] == jar[i]);
                let k = choose|k: int| 0 <= k < left.len() && left[k] == jar[i];
                assert(all[k] == jar[i]);
            } else {
                assert(all[all.len() - 1] == jar[i]);
            }
        }
        if each_once(jar) {
            assert(each_once(fewer)) by {
                assert forall|i: int, j: int| 0 <= i < j < fewer.len() implies (
                #[trigger] fewer[i]).0 != (#[trigger] fewer[j]).0 by {
                    assert(jar[i] == fewer[i] && jar[j] == fewer[j]);
                }
            }
            assert forall|i: int, j: int| 0 <= i < j < all.len() implies (#[trigger] all[i]).0
                != (#[trigger] all[j]).0 by {
                if j == left.len() {
                    let k = choose|k: int| 0 <= k < fewer.len() && fewer[k] == left[i];
                    assert(jar[k] == all[i]);
                } else {
                    assert(all[i] == left[i] && all[j] == left[j]);
                }
            }
        }
    }
}

/// A cookie that is set replaces the one by its name, and no other: each name
/// is held once, the last value it was given, and every other cookie stays.
pub proof fn a_cookie_is_held_once(jar: Seq<(Seq<char>, Seq<char>)>, header: Seq<char>)
    requires
        each_once(jar),
    ensures
        each_once(set(jar, header)),
        split_once(header, "="@) matches Some((name, rest)) ==> {
            &&& set(jar, header).last() == (name, up_to(rest, ";"@))
            &&& forall|i: int|
                0 <= i < jar.len() && (#[trigger] jar[i]).0 != name ==> set(jar, header).contains(
                    jar[i],
                )
        },
{
    if let Some((name, rest)) = split_once(header, "="@) {
        lemma_without(jar, name);
        let left = without(jar, name);
        let all = set(jar, header);
        assert forall|i: int, j: int| 0 <= i < j < all.len() implies (#[trigger] all[i]).0 != (
        #[trigger] all[j]).0 by {
            if j < left.len() {
                assert(all[i] == left[i] && all[j] == left[j]);
            } else {
                assert(all[i] == left[i]);
            }
        }
        assert forall|i: int| 0 <= i < jar.len() && (#[trigger] jar[i]).0 != name implies all.contains(
            jar[i],
        ) by {
            let k = choose|k: int| 0 <= k < left.len() && left[k] == jar[i];
            assert(all[k] == jar[i]);
        }
    }
}

/// A cookie is kept by its name and its value, without what else its header says
/// of it, behind those that stay; and a header that names no cookie changes
/// nothing.
pub proof fn a_cookie_is_kept_without_what_else_is_said_of_it(
    jar: Seq<(Seq<char>, Seq<char>)>,
    name: Seq<char>,
    value: Seq<char>,
    rest: Seq<char>,
)
    requires
        !name.contains('='),
        !value.contains(';'),
    ensures
        set(jar, name + seq!['='] + value) == without(jar, name) + seq![(name, value)],
        set(jar, name + seq!['='] + (value + seq![';'] + rest)) == without(jar, name) + seq![
            (name, value),
        ],
        set(jar, name) == jar,
{
    reveal_strlit("=");
    reveal_strlit(";");
    assert("="@ =~= seq!['=']);
    assert(";"@ =~= seq![';']);
    crate::text::a_text_is_cut_where_it_was_put_together(name, '=', value);
    crate::text::a_text_is_cut_where_it_was_put_together(name, '=', value + seq![';'] + rest);
    crate::text::a_text_is_cut_where_it_was_put_together(value, ';', rest);
    crate::text::a_cut_at_a_character_leaves_none(value, ';');
    crate::text::a_cut_at_a_character_leaves_none(name, '=');
    if let Some((left, right)) = split_once(value, ";"@) {
        assert(value[left.len() as int] == ';');
    }
    if let Some((left, right)) = split_once(name, "="@) {
        assert(name[left.len() as int] == '=');
    }
    assert(without(jar, name).push((name, value)) =~= without(jar, name) + seq![(name, value)]);
}

/// Every cookie is sent, in order, each as its name and its value.
pub proof fn every_cookie_is_sent(
    jar: Seq<(Seq<char>, Seq<char>)>,
    name: Seq<char>,
    value: Seq<char>,
)
    ensures
        sent(seq![(name, value)]) == name + "="@ + value,
        jar.len() > 0 ==> sent(jar + seq![(name, value)]) == sent(jar) + "; "@ + (name + "="@
            + value),
        sent(Seq::empty()).len() == 0,
{
    let one = name + "="@ + value;
    let all = Seq::new(jar.len(), |i: int| jar[i].0 + "="@ + jar[i].1);
    let more = jar + seq![(name, value)];
    assert(Seq::new(more.len(), |i: int| more[i].0 + "="@ + more[i].1) =~= all + seq![one]);
    let single = seq![(name, value)];
    assert(Seq::new(single.len(), |i: int| single[i].0 + "="@ + single[i].1) =~= seq![one]);
    crate::text::texts_are_put_together_in_order(all, one, Seq::empty(), "; "@);
}

} // verus!
