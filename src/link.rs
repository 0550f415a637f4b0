use vstd::prelude::*;
use vstd::string::StrSliceExecFns;
use crate::target::{
    resolve_target, selects, selects_none, selects_only, selects_several, Artifact, BuildError, LinkRef,
    TargetSpec,
};

verus! {

/// Length in bytes of an address.
pub const ADDRESS_LEN: usize = 20;

/// Whether byte position `x` lies in the placeholder that starts at `o`.
pub open spec fn covers(o: int, x: int) -> bool {
    o <= x < o + ADDRESS_LEN
}

/// The link references of one bytecode name existing artifacts, lie inside
/// the bytecode and do not overlap.
pub open spec fn refs_valid(code_len: nat, links: Seq<LinkRef>, n: nat) -> bool {
    &&& forall|k: int|
        0 <= k < links.len() ==> (#[trigger] links[k]).library < n && links[k].offset
            + ADDRESS_LEN <= code_len
    &&& forall|k1: int, k2: int|
        0 <= k1 < links.len() && 0 <= k2 < links.len() && k1 != k2 ==> (#[trigger] links[k1]).offset
            + ADDRESS_LEN <= (#[trigger] links[k2]).offset || links[k2].offset + ADDRESS_LEN
            <= links[k1].offset
}

/// Every artifact of the set has valid link references.
pub open spec fn links_valid(arts: Seq<Artifact>) -> bool {
    forall|i: int| 0 <= i < arts.len() ==> refs_valid(
        (#[trigger] arts[i]).bytecode@.len(),
        arts[i].links@,
        arts.len(),
    )
}

fn refs_valid_exec(a: &Artifact, n: usize) -> (r: bool)
    ensures
        r == refs_valid(a.bytecode@.len(), a.links@, n as nat),
{
    let links = &a.links;
    let len = a.bytecode.len();
    let mut k: usize = 0;
    while k < links.len()
        invariant
            k <= links@.len(),
            len == a.bytecode@.len(),
            links == &a.links,
            forall|k0: int|
                0 <= k0 < k ==> (#[trigger] links@[k0]).library < n && links@[k0].offset
                    + ADDRESS_LEN <= len,
            forall|k1: int, k2: int|
                0 <= k1 < k && 0 <= k2 < links@.len() && k1 != k2 ==> (#[trigger] links@[k1]).offset
                    + ADDRESS_LEN <= (#[trigger] links@[k2]).offset || links@[k2].offset
                    + ADDRESS_LEN <= links@[k1].offset,
        decreases links@.len() - k,
    {
        let o = links[k].offset;
        if links[k].library >= n || o > len || len - o < ADDRESS_LEN {
            return false;
        }
        let mut j: usize = 0;
        while j < links.len()
            invariant
                k < links@.len(),
                j <= links@.len(),
                links == &a.links,
                o == links@[k as int].offset,
                forall|k2: int|
                    0 <= k2 < j && k2 != k ==> o + ADDRESS_LEN <= (#[trigger] links@[k2]).offset
                        || links@[k2].offset + ADDRESS_LEN <= o,
            decreases links@.len() - j,
        {
            if j != k {
                let o2 = links[j].offset;
                if !(o2 >= o && o2 - o >= ADDRESS_LEN) && !(o >= o2 && o - o2 >= ADDRESS_LEN) {
                    assert(!(links@[k as int].offset + ADDRESS_LEN <= links@[j as int].offset
                        || links@[j as int].offset + ADDRESS_LEN <= links@[k as int].offset));
                    return false;
                }
            }
            j = j + 1;
        }
        k = k + 1;
    }
    true
}

/// Checks that every link reference of the set is in range and that no two
/// placeholders of one bytecode overlap.
pub fn check_links(arts: &Vec<Artifact>) -> (r: bool)
    ensures
        r == links_valid(arts@),
{
    let mut i: usize = 0;
    while i < arts.len()
        invariant
            i <= arts@.len(),
            forall|i0: int| 0 <= i0 < i ==> refs_valid(
                (#[trigger] arts@[i0]).bytecode@.len(),
                arts@[i0].links@,
                arts@.len(),
            ),
        decreases arts@.len() - i,
    {
        if !refs_valid_exec(&arts[i], arts.len()) {
            return false;
        }
        i = i + 1;
    }
    true
}

/// `out` is `code` with the address of each reference's library written
/// over its placeholder; `table[l]` is the address of library `l`.
pub open spec fn patched(code: Seq<u8>, links: Seq<LinkRef>, table: Seq<Vec<u8>>, out: Seq<u8>) -> bool {
    &&& out.len() == code.len()
    &&& forall|k: int, x: int|
        0 <= k < links.len() && covers((#[trigger] links[k]).offset as int, x) ==> #[trigger] out[x]
            == table[links[k].library as int]@[x - links[k].offset]
    &&& forall|x: int|
        0 <= x < code.len() && (forall|k: int|
            0 <= k < links.len() ==> !covers((#[trigger] links[k]).offset as int, x)) ==> out[x]
            == code[x]
}

/// Writes the address of each referenced library over its placeholder.
pub fn patch(code: &Vec<u8>, links: &Vec<LinkRef>, table: &Vec<Vec<u8>>) -> (out: Vec<u8>)
    requires
        refs_valid(code@.len(), links@, table@.len()),
        forall|l: int| 0 <= l < table@.len() ==> (#[trigger] table@[l])@.len() == ADDRESS_LEN,
    ensures
        patched(code@, links@, table@, out@),
{
    let len = code.len();
    let mut out = code.clone();
    let mut k: usize = 0;
    while k < links.len()
        invariant
            k <= links@.len(),
            refs_valid(code@.len(), links@, table@.len()),
            forall|l: int| 0 <= l < table@.len() ==> (#[trigger] table@[l])@.len() == ADDRESS_LEN,
            out@.len() == code@.len(),
            len == code@.len(),
            forall|k0: int, x: int|
                0 <= k0 < k && covers((#[trigger] links@[k0]).offset as int, x) ==> #[trigger] out@[x]
                    == table@[links@[k0].library as int]@[x - links@[k0].offset],
            forall|x: int|
                0 <= x < code@.len() && (forall|k0: int|
                    0 <= k0 < k ==> !covers((#[trigger] links@[k0]).offset as int, x)) ==> out@[x]
                    == code@[x],
        decreases links@.len() - k,
    {
        let o = links[k].offset;
        let addr = &table[links[k].library];
        assert(links@[k as int].library < table@.len());
        let ghost before = out@;
        let mut j: usize = 0;
        while j < ADDRESS_LEN
            invariant
                j <= ADDRESS_LEN,
                k < links@.len(),
                o == links@[k as int].offset,
                o + ADDRESS_LEN <= code@.len(),
                len == code@.len(),
                links@[k as int].library < table@.len(),
                before.len() == code@.len(),
                addr@.len() == ADDRESS_LEN,
                *addr == table@[links@[k as int].library as int],
                out@.len() == code@.len(),
                forall|x: int| o <= x < o + j ==> #[trigger] out@[x] == addr@[x - o],
                forall|x: int| 0 <= x < code@.len() && !(o <= x < o + j) ==> #[trigger] out@[x] == before[x],
            decreases ADDRESS_LEN - j,
        {
            out.set(o + j, addr[j]);
            j = j + 1;
        }
        assert forall|k0: int, x: int|
            0 <= k0 < k + 1 && covers((#[trigger] links@[k0]).offset as int, x) implies #[trigger] out@[x]
                == table@[links@[k0].library as int]@[x - links@[k0].offset] by {
            if k0 < k {
                assert(!covers(o as int, x));
                assert(out@[x] == before[x]);
            }
        }
        k = k + 1;
    }
    out
}

/// Artifact `a` refers to library `l` from its bytecode.
pub open spec fn references(a: Artifact, l: usize) -> bool {
    in_links(a.links@, l)
}

/// Some reference of `links` names library `l`.
pub open spec fn in_links(links: Seq<LinkRef>, l: usize) -> bool {
    exists|k: int| 0 <= k < links.len() && (#[trigger] links[k]).library == l
}

/// `deps` lists, once each, every library that the target needs, directly
/// or through another library, and nothing else: each entry is referenced by
/// the target or by an entry before it.
pub open spec fn dependency_order(arts: Seq<Artifact>, target: int, deps: Seq<usize>) -> bool {
    &&& deps.no_duplicates()
    &&& forall|p: int| 0 <= p < deps.len() ==> (#[trigger] deps[p]) < arts.len()
    &&& forall|k: int|
        0 <= k < arts[target].links@.len() ==> deps.contains(
            (#[trigger] arts[target].links@[k]).library,
        )
    &&& forall|p: int, k: int|
        0 <= p < deps.len() && 0 <= k < arts[deps[p] as int].links@.len() ==> deps.contains(
            (#[trigger] arts[#[trigger] deps[p] as int].links@[k]).library,
        )
    &&& forall|p: int|
        0 <= p < deps.len() ==> references(arts[target], #[trigger] deps[p]) || exists|r: int|
            0 <= r < p && references(arts[deps[r] as int], deps[p])
}

/// `deps` followed by the library of each reference of `links`, in order,
/// that is not listed yet.
pub open spec fn with_references(deps: Seq<usize>, links: Seq<LinkRef>) -> Seq<usize>
    decreases links.len(),
{
    if links.len() == 0 {
        deps
    } else {
        let d = with_references(deps, links.drop_last());
        if d.contains(links.last().library) {
            d
        } else {
            d.push(links.last().library)
        }
    }
}

/// The breadth-first walk from position `q` of `deps` on: each listed
/// library in turn adds the libraries it refers to; `fuel` bounds the steps.
pub open spec fn walk(arts: Seq<Artifact>, deps: Seq<usize>, q: nat, fuel: nat) -> Seq<usize>
    decreases fuel,
{
    if fuel == 0 || q >= deps.len() {
        deps
    } else {
        walk(
            arts,
            with_references(deps, arts[deps[q as int] as int].links@),
            q + 1,
            (fuel - 1) as nat,
        )
    }
}

/// The libraries that the target needs, breadth first, each at its first
/// reference.
pub open spec fn breadth_first(arts: Seq<Artifact>, target: int) -> Seq<usize> {
    walk(arts, with_references(Seq::empty(), arts[target].links@), 0, arts.len())
}

proof fn lemma_distinct_below(s: Seq<usize>, n: nat)
    requires
        s.no_duplicates(),
        forall|p: int| 0 <= p < s.len() ==> (#[trigger] s[p]) < n,
    ensures
        s.len() <= n,
{
    let t = s.map_values(|x: usize| x as int);
    assert forall|i: int, j: int| 0 <= i < t.len() && 0 <= j < t.len() && i != j implies t[i]
        != t[j] by {
        assert(s[i] != s[j]);
    }
    t.unique_seq_to_set();
    let r = vstd::set_lib::set_int_range(0, n as int);
    vstd::set_lib::lemma_int_range(0, n as int);
    assert(t.to_set().subset_of(r)) by {
        assert forall|v: int| t.to_set().contains(v) implies r.contains(v) by {
            let i = choose|i: int| 0 <= i < t.len() && t[i] == v;
            assert(s[i] < n);
        }
    }
    vstd::set_lib::lemma_len_subset(t.to_set(), r);
}

fn position(deps: &Vec<usize>, l: usize) -> (r: Option<usize>)
    ensures
        r is None <==> !deps@.contains(l),
        r matches Some(p) ==> p < deps@.len() && deps@[p as int] == l,
{
    let mut p: usize = 0;
    while p < deps.len()
        invariant
            p <= deps@.len(),
            forall|p0: int| 0 <= p0 < p ==> deps@[p0] != l,
        decreases deps@.len() - p,
    {
        if deps[p] == l {
            return Some(p);
        }
        p = p + 1;
    }
    None
}

fn add_references(links: &Vec<LinkRef>, deps: &mut Vec<usize>, n: usize)
    requires
        forall|k: int| 0 <= k < links@.len() ==> (#[trigger] links@[k]).library < n,
        old(deps)@.no_duplicates(),
        forall|p: int| 0 <= p < old(deps)@.len() ==> (#[trigger] old(deps)@[p]) < n,
    ensures
        final(deps)@ == with_references(old(deps)@, links@),
        final(deps)@.len() >= old(deps)@.len(),
        final(deps)@.subrange(0, old(deps)@.len() as int) == old(deps)@,
        final(deps)@.no_duplicates(),
        forall|p: int| 0 <= p < final(deps)@.len() ==> (#[trigger] final(deps)@[p]) < n,
        forall|k: int| 0 <= k < links@.len() ==> final(deps)@.contains((#[trigger] links@[k]).library),
        forall|p: int|
            old(deps)@.len() <= p < final(deps)@.len() ==> in_links(links@, #[trigger] final(deps)@[p]),
{
    let ghost start = deps@;
    let mut k: usize = 0;
    while k < links.len()
        invariant
            k <= links@.len(),
            forall|k0: int| 0 <= k0 < links@.len() ==> (#[trigger] links@[k0]).library < n,
            deps@.len() >= start.len(),
            start == old(deps)@,
            deps@ == with_references(start, links@.subrange(0, k as int)),
            deps@.subrange(0, start.len() as int) == start,
            deps@.no_duplicates(),
            forall|p: int| 0 <= p < deps@.len() ==> (#[trigger] deps@[p]) < n,
            forall|k0: int| 0 <= k0 < k ==> deps@.contains((#[trigger] links@[k0]).library),
            forall|p: int| start.len() <= p < deps@.len() ==> in_links(links@, #[trigger] deps@[p]),
        decreases links@.len() - k,
    {
        let l = links[k].library;
        assert(links@.subrange(0, k + 1).drop_last() =~= links@.subrange(0, k as int));
        if position(deps, l).is_none() {
            let ghost prev = deps@;
            deps.push(l);
            assert(deps@.subrange(0, start.len() as int) =~= start) by {
                assert(prev.subrange(0, start.len() as int) == start);
            }
            assert forall|k0: int| 0 <= k0 < k + 1 implies deps@.contains(
                (#[trigger] links@[k0]).library,
            ) by {
                if k0 < k {
                    let p = choose|p: int| 0 <= p < prev.len() && prev[p] == links@[k0].library;
                    assert(deps@[p] == prev[p]);
                } else {
                    assert(deps@[prev.len() as int] == l);
                }
            }
            assert forall|p: int| start.len() <= p < deps@.len() implies in_links(
                links@,
                #[trigger] deps@[p],
            ) by {
                if p < prev.len() {
                    assert(deps@[p] == prev[p]);
                } else {
                    assert(links@[k as int].library == deps@[p]);
                }
            }
        }
        k = k + 1;
    }
    assert(links@.subrange(0, links@.len() as int) =~= links@);
}

/// Lists the libraries that the target at `target` needs, breadth first,
/// each once, in the order in which they are first referenced.
pub fn dependency_closure(arts: &Vec<Artifact>, target: usize) -> (deps: Vec<usize>)
    requires
        links_valid(arts@),
        target < arts@.len(),
    ensures
        dependency_order(arts@, target as int, deps@),
        deps@ == breadth_first(arts@, target as int),
{
    let n = arts.len();
    let mut deps: Vec<usize> = Vec::new();
    assert(refs_valid(arts@[target as int].bytecode@.len(), arts@[target as int].links@, n as nat));
    add_references(&arts[target].links, &mut deps, n);
    proof {
        lemma_distinct_below(deps@, n as nat);
    }
    let mut q: usize = 0;
    while q < deps.len()
        invariant
            n == arts@.len(),
            links_valid(arts@),
            target < n,
            q <= deps@.len(),
            deps@.len() <= n,
            walk(arts@, deps@, q as nat, (n - q) as nat) == breadth_first(arts@, target as int),
            deps@.no_duplicates(),
            forall|p: int| 0 <= p < deps@.len() ==> (#[trigger] deps@[p]) < n,
            forall|k: int|
                0 <= k < arts@[target as int].links@.len() ==> deps@.contains(
                    (#[trigger] arts@[target as int].links@[k]).library,
                ),
            forall|p: int, k: int|
                0 <= p < q && 0 <= k < arts@[deps@[p] as int].links@.len() ==> deps@.contains(
                    (#[trigger] arts@[#[trigger] deps@[p] as int].links@[k]).library,
                ),
            forall|p: int|
                0 <= p < deps@.len() ==> references(arts@[target as int], #[trigger] deps@[p])
                    || exists|r: int| 0 <= r < p && references(arts@[deps@[r] as int], deps@[p]),
        decreases n - q,
    {
        proof {
            lemma_distinct_below(deps@, n as nat);
        }
        let d = deps[q];
        let ghost prev = deps@;
        assert(refs_valid(arts@[d as int].bytecode@.len(), arts@[d as int].links@, n as nat));
        add_references(&arts[d].links, &mut deps, n);
        proof {
            lemma_distinct_below(deps@, n as nat);
            assert(walk(arts@, prev, q as nat, (n - q) as nat) == walk(
                arts@,
                deps@,
                (q + 1) as nat,
                (n - (q + 1)) as nat,
            ));
        }
        assert forall|p: int| 0 <= p < prev.len() implies #[trigger] deps@[p] == prev[p] by {
            assert(deps@.subrange(0, prev.len() as int)[p] == prev[p]);
        }
        assert forall|k: int|
            0 <= k < arts@[target as int].links@.len() implies deps@.contains(
                (#[trigger] arts@[target as int].links@[k]).library,
            ) by {
            let p = choose|p: int| 0 <= p < prev.len() && prev[p] == arts@[target as int].links@[k].library;
            assert(deps@[p] == prev[p]);
        }
        assert forall|p: int, k: int|
            0 <= p < q + 1 && 0 <= k < arts@[deps@[p] as int].links@.len() implies deps@.contains(
                (#[trigger] arts@[#[trigger] deps@[p] as int].links@[k]).library,
            ) by {
            if p < q {
                assert(deps@[p] == prev[p]);
                let p2 = choose|p2: int| 0 <= p2 < prev.len() && prev[p2] == arts@[prev[p] as int].links@[k].library;
                assert(deps@[p2] == prev[p2]);
            } else {
                assert(deps@[p] == d);
            }
        }
        assert forall|p: int| 0 <= p < deps@.len() implies references(
            arts@[target as int],
            #[trigger] deps@[p],
        ) || exists|r: int| 0 <= r < p && references(arts@[deps@[r] as int], deps@[p]) by {
            if p < prev.len() {
                assert(deps@[p] == prev[p]);
                if !references(arts@[target as int], prev[p]) {
                    let r = choose|r: int| 0 <= r < p && references(arts@[prev[r] as int], prev[p]);
                    assert(deps@[r] == prev[r]);
                }
            } else {
                let k = choose|k: int|
                    0 <= k < arts@[d as int].links@.len() && (#[trigger] arts@[d as int].links@[k]).library == deps@[p];
                assert(deps@[q as int] == d);
                assert(references(arts@[deps@[q as int] as int], deps@[p]));
            }
        }
        q = q + 1;
    }
    assert(walk(arts@, deps@, q as nat, (n - q) as nat) == deps@);
    deps
}

/// The address that a deployment by `deployer` at sequence number `nonce`
/// receives.
pub uninterp spec fn create_address(deployer: Seq<u8>, nonce: u64) -> Seq<u8>;

/// Relies on alloy_primitives::Address::create: the address of a contract
/// created by `deployer` at `nonce`, twenty bytes.
#[verifier::external_body]
pub(crate) fn create_address_of(deployer: &Vec<u8>, nonce: u64) -> (r: Vec<u8>)
    requires
        deployer@.len() == ADDRESS_LEN,
    ensures
        r@ == create_address(deployer@, nonce),
        r@.len() == ADDRESS_LEN,
{
    alloy_primitives::Address::from_slice(deployer).create(nonce).to_vec()
}

/// A library address fixed by the user, keyed by source path and name.
pub struct LibraryOverride {
    pub path: String,
    pub name: String,
    pub address: Vec<u8>,
}

/// Every override holds a full address.
pub open spec fn overrides_valid(ovs: Seq<LibraryOverride>) -> bool {
    forall|i: int| 0 <= i < ovs.len() ==> (#[trigger] ovs[i]).address@.len() == ADDRESS_LEN
}

/// A source path made absolute against the project root.
pub open spec fn absolute(root: Seq<char>, p: Seq<char>) -> Seq<char> {
    if p.len() > 0 && p[0] == '/' {
        p
    } else {
        root + seq!['/'] + p
    }
}

/// Override `o` is meant for the library artifact `a`.
pub open spec fn override_matches(o: LibraryOverride, root: Seq<char>, a: Artifact) -> bool {
    absolute(root, o.path@) == absolute(root, a.source@) && o.name@ == a.name@
}

/// `i` is the first override meant for `a`.
pub open spec fn first_override(ovs: Seq<LibraryOverride>, root: Seq<char>, a: Artifact, i: int) -> bool {
    &&& 0 <= i < ovs.len()
    &&& override_matches(ovs[i], root, a)
    &&& forall|j: int| 0 <= j < i ==> !override_matches(#[trigger] ovs[j], root, a)
}

/// Some override is meant for `a`.
pub open spec fn has_override(ovs: Seq<LibraryOverride>, root: Seq<char>, a: Artifact) -> bool {
    exists|i: int| 0 <= i < ovs.len() && override_matches(#[trigger] ovs[i], root, a)
}

/// The address that the first override meant for `a` fixes.
pub open spec fn override_address(ovs: Seq<LibraryOverride>, root: Seq<char>, a: Artifact) -> Seq<u8> {
    ovs[choose|i: int| first_override(ovs, root, a, i)].address@
}

/// How many of the first `p` libraries have no override, and so are deployed.
pub open spec fn deployed_before(
    arts: Seq<Artifact>,
    ovs: Seq<LibraryOverride>,
    root: Seq<char>,
    deps: Seq<usize>,
    p: int,
) -> nat
    decreases p,
{
    if p <= 0 {
        0
    } else {
        deployed_before(arts, ovs, root, deps, p - 1) + if has_override(
            ovs,
            root,
            arts[deps[p - 1] as int],
        ) {
            0nat
        } else {
            1nat
        }
    }
}

/// The address of the library at position `p` of `deps`: its override if
/// there is one, else the address of its deployment, in order, by `deployer`
/// from sequence number `nonce` on.
pub open spec fn library_address(
    arts: Seq<Artifact>,
    ovs: Seq<LibraryOverride>,
    root: Seq<char>,
    deployer: Seq<u8>,
    nonce: u64,
    deps: Seq<usize>,
    p: int,
) -> Seq<u8> {
    if has_override(ovs, root, arts[deps[p] as int]) {
        override_address(ovs, root, arts[deps[p] as int])
    } else {
        create_address(deployer, (nonce + deployed_before(arts, ovs, root, deps, p)) as u64)
    }
}

fn absolute_chars(root: &str, p: &str) -> (r: Vec<char>)
    ensures
        r@ == absolute(root@, p@),
{
    let mut out: Vec<char> = Vec::new();
    let plen = p.unicode_len();
    if !(plen > 0 && p.get_char(0) == '/') {
        let rlen = root.unicode_len();
        let mut i: usize = 0;
        while i < rlen
            invariant
                i <= rlen,
                rlen == root@.len(),
                out@ == root@.subrange(0, i as int),
            decreases rlen - i,
        {
            out.push(root.get_char(i));
            assert(out@ =~= root@.subrange(0, i + 1));
            i = i + 1;
        }
        out.push('/');
    }
    let ghost pre = out@;
    let mut i: usize = 0;
    while i < plen
        invariant
            i <= plen,
            plen == p@.len(),
            out@ == pre + p@.subrange(0, i as int),
        decreases plen - i,
    {
        out.push(p.get_char(i));
        assert(out@ =~= pre + p@.subrange(0, i + 1));
        i = i + 1;
    }
    assert(p@.subrange(0, plen as int) =~= p@);
    if plen > 0 && p.get_char(0) == '/' {
        assert(out@ =~= absolute(root@, p@));
    } else {
        assert(out@ =~= absolute(root@, p@));
    }
    out
}

fn same_chars(a: &Vec<char>, b: &Vec<char>) -> (r: bool)
    ensures
        r == (a@ == b@),
{
    if a.len() != b.len() {
        return false;
    }
    let mut i: usize = 0;
    while i < a.len()
        invariant
            i <= a@.len(),
            a@.len() == b@.len(),
            forall|j: int| 0 <= j < i ==> a@[j] == b@[j],
        decreases a@.len() - i,
    {
        if a[i] != b[i] {
            return false;
        }
        i = i + 1;
    }
    assert(a@ =~= b@);
    true
}

/// Finds the first override meant for library `a`.
pub fn find_override(ovs: &Vec<LibraryOverride>, root: &str, a: &Artifact) -> (r: Option<usize>)
    ensures
        r is None <==> !has_override(ovs@, root@, *a),
        r matches Some(i) ==> first_override(ovs@, root@, *a, i as int),
{
    let lib_path = absolute_chars(root, a.source.as_str());
    let mut i: usize = 0;
    while i < ovs.len()
        invariant
            i <= ovs@.len(),
            lib_path@ == absolute(root@, a.source@),
            forall|j: int| 0 <= j < i ==> !override_matches(#[trigger] ovs@[j], root@, *a),
        decreases ovs@.len() - i,
    {
        let o = &ovs[i];
        let path = absolute_chars(root, o.path.as_str());
        if same_chars(&path, &lib_path) && o.name == a.name {
            return Some(i);
        }
        i = i + 1;
    }
    None
}

proof fn lemma_first_override_unique(ovs: Seq<LibraryOverride>, root: Seq<char>, a: Artifact, i: int)
    requires
        first_override(ovs, root, a, i),
    ensures
        override_address(ovs, root, a) == ovs[i].address@,
        has_override(ovs, root, a),
{
    let c = choose|c: int| first_override(ovs, root, a, c);
    assert(first_override(ovs, root, a, c));
    if c < i {
        assert(!override_matches(ovs[c], root, a));
    } else if i < c {
        assert(!override_matches(ovs[i], root, a));
    }
}

/// What linking hands to deployment: the selected target, the libraries it
/// needs with their addresses, the bytecodes to deploy before it, and its
/// own bytecode with every placeholder filled.
pub struct LinkPlan {
    pub target: usize,
    pub libraries: Vec<usize>,
    pub addresses: Vec<Vec<u8>>,
    pub predeploy: Vec<Vec<u8>>,
    pub bytecode: Vec<u8>,
}

/// `out` is `code` with each placeholder replaced by the address that
/// `addrs` gives, position for position with `deps`, to its library.
pub open spec fn patched_by(
    code: Seq<u8>,
    links: Seq<LinkRef>,
    deps: Seq<usize>,
    addrs: Seq<Vec<u8>>,
    out: Seq<u8>,
) -> bool {
    &&& out.len() == code.len()
    &&& forall|k: int, x: int, p: int|
        0 <= k < links.len() && covers((#[trigger] links[k]).offset as int, x) && 0 <= p < deps.len()
            && #[trigger] deps[p] == links[k].library ==> #[trigger] out[x] == addrs[p]@[x
            - links[k].offset]
    &&& forall|x: int|
        0 <= x < code.len() && (forall|k: int|
            0 <= k < links.len() ==> !covers((#[trigger] links[k]).offset as int, x)) ==> out[x]
            == code[x]
}

/// The plan is the one that linking the target `t` must give.
pub open spec fn plan_correct(
    arts: Seq<Artifact>,
    t: TargetSpec,
    ovs: Seq<LibraryOverride>,
    root: Seq<char>,
    deployer: Seq<u8>,
    nonce: u64,
    plan: LinkPlan,
) -> bool {
    let deps = plan.libraries@;
    let addrs = plan.addresses@;
    let target = plan.target as int;
    &&& selects_only(arts, t, target)
    &&& arts[target].bytecode@.len() > 0
    &&& dependency_order(arts, target, deps)
    &&& deps == breadth_first(arts, target)
    &&& addrs.len() == deps.len()
    &&& forall|p: int| 0 <= p < deps.len() ==> (#[trigger] addrs[p])@.len() == ADDRESS_LEN
    &&& forall|p: int|
        0 <= p < deps.len() ==> (#[trigger] addrs[p])@ == library_address(
            arts,
            ovs,
            root,
            deployer,
            nonce,
            deps,
            p,
        )
    &&& patched_by(arts[target].bytecode@, arts[target].links@, deps, addrs, plan.bytecode@)
    &&& plan.predeploy@.len() == deployed_before(arts, ovs, root, deps, deps.len() as int)
    &&& forall|p: int|
        0 <= p < deps.len() && !has_override(ovs, root, arts[#[trigger] deps[p] as int])
            ==> patched_by(
            arts[deps[p] as int].bytecode@,
            arts[deps[p] as int].links@,
            deps,
            addrs,
            plan.predeploy@[deployed_before(arts, ovs, root, deps, p) as int]@,
        )
}

fn zero_address() -> (r: Vec<u8>)
    ensures
        r@.len() == ADDRESS_LEN,
{
    let mut r: Vec<u8> = Vec::new();
    let mut i: usize = 0;
    while i < ADDRESS_LEN
        invariant
            i <= ADDRESS_LEN,
            r@.len() == i,
        decreases ADDRESS_LEN - i,
    {
        r.push(0);
        i = i + 1;
    }
    r
}

proof fn lemma_patched_by(
    code: Seq<u8>,
    links: Seq<LinkRef>,
    table: Seq<Vec<u8>>,
    deps: Seq<usize>,
    addrs: Seq<Vec<u8>>,
    out: Seq<u8>,
)
    requires
        patched(code, links, table, out),
        addrs.len() == deps.len(),
        forall|p: int| 0 <= p < deps.len() ==> (#[trigger] deps[p]) < table.len(),
        forall|p: int| 0 <= p < deps.len() ==> table[#[trigger] deps[p] as int]@ == addrs[p]@,
    ensures
        patched_by(code, links, deps, addrs, out),
{
    assert forall|k: int, x: int, p: int|
        0 <= k < links.len() && covers((#[trigger] links[k]).offset as int, x) && 0 <= p
            < deps.len() && #[trigger] deps[p] == links[k].library implies #[trigger] out[x]
            == addrs[p]@[x - links[k].offset] by {
        assert(table[deps[p] as int]@ == addrs[p]@);
    }
}

/// The addresses of the libraries `deps`, position for position, and a table
/// that gives each library's address at its index in the artifact set.
fn assign_addresses(
    arts: &Vec<Artifact>,
    ovs: &Vec<LibraryOverride>,
    root: &str,
    deployer: &Vec<u8>,
    nonce: u64,
    deps: &Vec<usize>,
) -> (r: (Vec<Vec<u8>>, Vec<Vec<u8>>, Vec<bool>))
    requires
        deps@.no_duplicates(),
        forall|p: int| 0 <= p < deps@.len() ==> (#[trigger] deps@[p]) < arts@.len(),
        deps@.len() <= arts@.len(),
        overrides_valid(ovs@),
        deployer@.len() == ADDRESS_LEN,
        nonce + arts@.len() <= u64::MAX,
    ensures
        r.0@.len() == arts@.len(),
        forall|l: int| 0 <= l < r.0@.len() ==> (#[trigger] r.0@[l])@.len() == ADDRESS_LEN,
        r.1@.len() == deps@.len(),
        r.2@.len() == deps@.len(),
        forall|p: int|
            0 <= p < deps@.len() ==> (#[trigger] r.1@[p])@ == library_address(
                arts@,
                ovs@,
                root@,
                deployer@,
                nonce,
                deps@,
                p,
            ),
        forall|p: int| 0 <= p < deps@.len() ==> r.0@[#[trigger] deps@[p] as int]@ == r.1@[p]@,
        forall|p: int|
            0 <= p < deps@.len() ==> #[trigger] r.2@[p] == has_override(
                ovs@,
                root@,
                arts@[deps@[p] as int],
            ),
{
    let n = arts.len();
    let mut table: Vec<Vec<u8>> = Vec::new();
    let mut i: usize = 0;
    while i < n
        invariant
            i <= n,
            table@.len() == i,
            forall|l: int| 0 <= l < table@.len() ==> (#[trigger] table@[l])@.len() == ADDRESS_LEN,
        decreases n - i,
    {
        table.push(zero_address());
        i = i + 1;
    }
    let mut addresses: Vec<Vec<u8>> = Vec::new();
    let mut fixed: Vec<bool> = Vec::new();
    let mut fresh: u64 = nonce;
    let mut p: usize = 0;
    while p < deps.len()
        invariant
            n == arts@.len(),
            deps@.len() <= n,
            deps@.no_duplicates(),
            forall|p0: int| 0 <= p0 < deps@.len() ==> (#[trigger] deps@[p0]) < n,
            overrides_valid(ovs@),
            deployer@.len() == ADDRESS_LEN,
            nonce + n <= u64::MAX,
            p <= deps@.len(),
            table@.len() == n,
            forall|l: int| 0 <= l < table@.len() ==> (#[trigger] table@[l])@.len() == ADDRESS_LEN,
            addresses@.len() == p,
            fixed@.len() == p,
            deployed_before(arts@, ovs@, root@, deps@, p as int) <= p,
            fresh == nonce + deployed_before(arts@, ovs@, root@, deps@, p as int),
            forall|p0: int|
                0 <= p0 < p ==> (#[trigger] addresses@[p0])@ == library_address(
                    arts@,
                    ovs@,
                    root@,
                    deployer@,
                    nonce,
                    deps@,
                    p0,
                ),
            forall|p0: int| 0 <= p0 < p ==> table@[#[trigger] deps@[p0] as int]@ == addresses@[p0]@,
            forall|p0: int|
                0 <= p0 < p ==> #[trigger] fixed@[p0] == has_override(
                    ovs@,
                    root@,
                    arts@[deps@[p0] as int],
                ),
        decreases deps@.len() - p,
    {
        let d = deps[p];
        let found = find_override(ovs, root, &arts[d]);
        let a = match found {
            Some(k) => {
                proof {
                    lemma_first_override_unique(ovs@, root@, arts@[d as int], k as int);
                }
                ovs[k].address.clone()
            },
            None => {
                let x = create_address_of(deployer, fresh);
                fresh = fresh + 1;
                x
            },
        };
        let ghost prev_table = table@;
        let ghost prev_addresses = addresses@;
        table.set(d, a.clone());
        addresses.push(a);
        fixed.push(found.is_some());
        assert forall|p0: int| 0 <= p0 < p + 1 implies table@[#[trigger] deps@[p0] as int]@
            == addresses@[p0]@ by {
            if p0 < p {
                assert(deps@[p0] != deps@[p as int]);
                assert(table@[deps@[p0] as int] == prev_table[deps@[p0] as int]);
                assert(addresses@[p0] == prev_addresses[p0]);
            }
        }
        p = p + 1;
    }
    (table, addresses, fixed)
}

/// The bytecodes of the libraries without an override, in order, each with
/// its placeholders filled from `table`.
fn patch_libraries(
    arts: &Vec<Artifact>,
    ovs: &Vec<LibraryOverride>,
    root: &str,
    deps: &Vec<usize>,
    table: &Vec<Vec<u8>>,
    addresses: &Vec<Vec<u8>>,
    fixed: &Vec<bool>,
) -> (predeploy: Vec<Vec<u8>>)
    requires
        links_valid(arts@),
        forall|p: int| 0 <= p < deps@.len() ==> (#[trigger] deps@[p]) < arts@.len(),
        table@.len() == arts@.len(),
        forall|l: int| 0 <= l < table@.len() ==> (#[trigger] table@[l])@.len() == ADDRESS_LEN,
        addresses@.len() == deps@.len(),
        fixed@.len() == deps@.len(),
        forall|p: int| 0 <= p < deps@.len() ==> table@[#[trigger] deps@[p] as int]@ == addresses@[p]@,
        forall|p: int|
            0 <= p < deps@.len() ==> #[trigger] fixed@[p] == has_override(
                ovs@,
                root@,
                arts@[deps@[p] as int],
            ),
    ensures
        predeploy@.len() == deployed_before(arts@, ovs@, root@, deps@, deps@.len() as int),
        forall|p: int|
            0 <= p < deps@.len() && !has_override(ovs@, root@, arts@[#[trigger] deps@[p] as int])
                ==> patched_by(
                arts@[deps@[p] as int].bytecode@,
                arts@[deps@[p] as int].links@,
                deps@,
                addresses@,
                predeploy@[deployed_before(arts@, ovs@, root@, deps@, p) as int]@,
            ),
{
    let n = arts.len();
    let mut predeploy: Vec<Vec<u8>> = Vec::new();
    let mut q: usize = 0;
    while q < deps.len()
        invariant
            n == arts@.len(),
            q <= deps@.len(),
            links_valid(arts@),
            forall|p: int| 0 <= p < deps@.len() ==> (#[trigger] deps@[p]) < arts@.len(),
            table@.len() == arts@.len(),
            forall|l: int| 0 <= l < table@.len() ==> (#[trigger] table@[l])@.len() == ADDRESS_LEN,
            addresses@.len() == deps@.len(),
            fixed@.len() == deps@.len(),
            forall|p: int|
                0 <= p < deps@.len() ==> table@[#[trigger] deps@[p] as int]@ == addresses@[p]@,
            forall|p: int|
                0 <= p < deps@.len() ==> #[trigger] fixed@[p] == has_override(
                    ovs@,
                    root@,
                    arts@[deps@[p] as int],
                ),
            predeploy@.len() == deployed_before(arts@, ovs@, root@, deps@, q as int),
            forall|p0: int|
                0 <= p0 < q && !has_override(ovs@, root@, arts@[#[trigger] deps@[p0] as int])
                    ==> deployed_before(arts@, ovs@, root@, deps@, p0) < predeploy@.len()
                    && patched_by(
                    arts@[deps@[p0] as int].bytecode@,
                    arts@[deps@[p0] as int].links@,
                    deps@,
                    addresses@,
                    predeploy@[deployed_before(arts@, ovs@, root@, deps@, p0) as int]@,
                ),
        decreases deps@.len() - q,
    {
        let d = deps[q];
        assert(fixed@[q as int] == has_override(ovs@, root@, arts@[deps@[q as int] as int]));
        if !fixed[q] {
            let lib = &arts[d];
            assert(refs_valid(lib.bytecode@.len(), lib.links@, n as nat));
            let code = patch(&lib.bytecode, &lib.links, table);
            proof {
                lemma_patched_by(lib.bytecode@, lib.links@, table@, deps@, addresses@, code@);
            }
            let ghost prev = predeploy@;
            predeploy.push(code);
            assert forall|p0: int|
                0 <= p0 < q + 1 && !has_override(ovs@, root@, arts@[#[trigger] deps@[p0] as int])
                    implies deployed_before(arts@, ovs@, root@, deps@, p0) < predeploy@.len()
                    && patched_by(
                    arts@[deps@[p0] as int].bytecode@,
                    arts@[deps@[p0] as int].links@,
                    deps@,
                    addresses@,
                    predeploy@[deployed_before(arts@, ovs@, root@, deps@, p0) as int]@,
                ) by {
                if p0 < q {
                    assert(predeploy@[deployed_before(arts@, ovs@, root@, deps@, p0) as int] == prev[deployed_before(arts@, ovs@, root@, deps@, p0) as int]);
                }
            }
        }
        q = q + 1;
    }
    predeploy
}

/// Selects the target, gathers the libraries it needs, gives each an
/// address (its override, else the address of its deployment by `deployer`
/// counting from `nonce`) and fills every placeholder with it.
pub fn link_program(
    arts: &Vec<Artifact>,
    t: &TargetSpec,
    ovs: &Vec<LibraryOverride>,
    root: &str,
    deployer: &Vec<u8>,
    nonce: u64,
) -> (r: Result<LinkPlan, BuildError>)
    requires
        deployer@.len() == ADDRESS_LEN,
        overrides_valid(ovs@),
        nonce + arts@.len() <= u64::MAX,
    ensures
        !links_valid(arts@) <==> r == Err::<LinkPlan, BuildError>(BuildError::LinkError),
        links_valid(arts@) ==> (r is Ok <==> exists|i: int|
            selects_only(arts@, *t, i) && arts@[i].bytecode@.len() > 0),
        r == Err::<LinkPlan, BuildError>(BuildError::TargetNotFound) <==> links_valid(arts@)
            && selects_none(arts@, *t),
        r == Err::<LinkPlan, BuildError>(BuildError::AmbiguousTarget) <==> links_valid(arts@)
            && selects_several(arts@, *t),
        r == Err::<LinkPlan, BuildError>(BuildError::MissingBytecode) <==> links_valid(arts@)
            && exists|i: int| selects_only(arts@, *t, i) && arts@[i].bytecode@.len() == 0,
        r is Err ==> r->Err_0 != BuildError::MalformedTarget,
        r matches Ok(plan) ==> plan_correct(arts@, *t, ovs@, root@, deployer@, nonce, plan),
{
    if !check_links(arts) {
        return Err(BuildError::LinkError);
    }
    let target = match resolve_target(arts, t) {
        Ok(i) => i,
        Err(e) => {
            return Err(e);
        },
    };
    let n = arts.len();
    let deps = dependency_closure(arts, target);
    proof {
        lemma_distinct_below(deps@, n as nat);
    }
    let (table, addresses, fixed) = assign_addresses(arts, ovs, root, deployer, nonce, &deps);
    let tgt = &arts[target];
    assert(refs_valid(tgt.bytecode@.len(), tgt.links@, n as nat));
    let bytecode = patch(&tgt.bytecode, &tgt.links, &table);
    proof {
        lemma_patched_by(tgt.bytecode@, tgt.links@, table@, deps@, addresses@, bytecode@);
    }
    let predeploy = patch_libraries(arts, ovs, root, &deps, &table, &addresses, &fixed);
    let plan = LinkPlan { target, libraries: deps, addresses, predeploy, bytecode };
    proof {
        assert(selects_only(arts@, *t, target as int));
        assert forall|i: int|
            selects_only(arts@, *t, i) && arts@[i].bytecode@.len() == 0 implies false by {
            assert(i == target);
        }
        assert(!selects_none(arts@, *t)) by {
            assert(selects(arts@[target as int], *t));
        }
        assert(!selects_several(arts@, *t));
    }
    Ok(plan)
}

/// The twenty bytes of `code` at the placeholder that starts at `o`.
pub open spec fn slot(code: Seq<u8>, o: usize) -> Seq<u8> {
    code.subrange(o as int, o + ADDRESS_LEN)
}

proof fn lemma_slot_holds(
    arts: Seq<Artifact>,
    t: TargetSpec,
    ovs: Seq<LibraryOverride>,
    root: Seq<char>,
    deployer: Seq<u8>,
    nonce: u64,
    plan: LinkPlan,
    k: int,
) -> (p: int)
    requires
        plan_correct(arts, t, ovs, root, deployer, nonce, plan),
        links_valid(arts),
        0 <= k < arts[plan.target as int].links@.len(),
    ensures
        0 <= p < plan.libraries@.len(),
        plan.libraries@[p] == arts[plan.target as int].links@[k].library,
        slot(plan.bytecode@, arts[plan.target as int].links@[k].offset) == library_address(
            arts,
            ovs,
            root,
            deployer,
            nonce,
            plan.libraries@,
            p,
        ),
{
    let target = plan.target as int;
    let deps = plan.libraries@;
    let lk = arts[target].links@[k];
    assert(deps.contains(lk.library));
    let p = choose|p: int| 0 <= p < deps.len() && deps[p] == lk.library;
    assert(refs_valid(arts[target].bytecode@.len(), arts[target].links@, arts.len()));
    let a = plan.addresses@[p]@;
    assert(a.len() == ADDRESS_LEN);
    assert forall|i: int| 0 <= i < ADDRESS_LEN implies #[trigger] slot(plan.bytecode@, lk.offset)[i]
        == a[i] by {
        let x = lk.offset + i;
        assert(covers(lk.offset as int, x));
        assert(plan.bytecode@[x] == plan.addresses@[p]@[x - lk.offset]);
    }
    assert(slot(plan.bytecode@, lk.offset) =~= a);
    p
}

/// In a linked target, every placeholder of a library with an override holds
/// the override's address, every placeholder of any other library holds the
/// address of that library's deployment, and two placeholders of one library
/// hold the same address.
pub proof fn lemma_link_addresses(
    arts: Seq<Artifact>,
    t: TargetSpec,
    ovs: Seq<LibraryOverride>,
    root: Seq<char>,
    deployer: Seq<u8>,
    nonce: u64,
    plan: LinkPlan,
)
    requires
        links_valid(arts),
        plan_correct(arts, t, ovs, root, deployer, nonce, plan),
    ensures
        forall|k: int|
            0 <= k < arts[plan.target as int].links@.len() && has_override(
                ovs,
                root,
                arts[(#[trigger] arts[plan.target as int].links@[k]).library as int],
            ) ==> slot(plan.bytecode@, arts[plan.target as int].links@[k].offset)
                == override_address(
                ovs,
                root,
                arts[arts[plan.target as int].links@[k].library as int],
            ),
        forall|k: int|
            0 <= k < arts[plan.target as int].links@.len() && !has_override(
                ovs,
                root,
                arts[(#[trigger] arts[plan.target as int].links@[k]).library as int],
            ) ==> exists|p: int|
                0 <= p < plan.libraries@.len() && plan.libraries@[p]
                    == arts[plan.target as int].links@[k].library && slot(
                    plan.bytecode@,
                    arts[plan.target as int].links@[k].offset,
                ) == create_address(
                    deployer,
                    (nonce + deployed_before(arts, ovs, root, plan.libraries@, p)) as u64,
                ),
        forall|k1: int, k2: int|
            0 <= k1 < arts[plan.target as int].links@.len() && 0 <= k2 < arts[plan.target as int].links@.len()
                && (#[trigger] arts[plan.target as int].links@[k1]).library == (
            #[trigger] arts[plan.target as int].links@[k2]).library ==> slot(
                plan.bytecode@,
                arts[plan.target as int].links@[k1].offset,
            ) == slot(plan.bytecode@, arts[plan.target as int].links@[k2].offset),
{
    let target = plan.target as int;
    let links = arts[target].links@;
    assert forall|k: int|
        0 <= k < links.len() && has_override(ovs, root, arts[(#[trigger] links[k]).library as int])
            implies slot(plan.bytecode@, links[k].offset) == override_address(
            ovs,
            root,
            arts[links[k].library as int],
        ) by {
        let p = lemma_slot_holds(arts, t, ovs, root, deployer, nonce, plan, k);
    }
    assert forall|k: int|
        0 <= k < links.len() && !has_override(ovs, root, arts[(#[trigger] links[k]).library as int])
            implies exists|p: int|
            0 <= p < plan.libraries@.len() && plan.libraries@[p] == links[k].library && slot(
                plan.bytecode@,
                links[k].offset,
            ) == create_address(
                deployer,
                (nonce + deployed_before(arts, ovs, root, plan.libraries@, p)) as u64,
            ) by {
        let p = lemma_slot_holds(arts, t, ovs, root, deployer, nonce, plan, k);
    }
    assert forall|k1: int, k2: int|
        0 <= k1 < links.len() && 0 <= k2 < links.len() && (#[trigger] links[k1]).library == (
        #[trigger] links[k2]).library implies slot(plan.bytecode@, links[k1].offset) == slot(
            plan.bytecode@,
            links[k2].offset,
        ) by {
        let p1 = lemma_slot_holds(arts, t, ovs, root, deployer, nonce, plan, k1);
        let p2 = lemma_slot_holds(arts, t, ovs, root, deployer, nonce, plan, k2);
        assert(plan.libraries@.no_duplicates());
        assert(p1 == p2);
    }
}

proof fn lemma_patched_same(
    code: Seq<u8>,
    links: Seq<LinkRef>,
    n: nat,
    deps: Seq<usize>,
    a: Seq<Vec<u8>>,
    b: Seq<Vec<u8>>,
    out_a: Seq<u8>,
    out_b: Seq<u8>,
)
    requires
        refs_valid(code.len(), links, n),
        forall|k: int| 0 <= k < links.len() ==> deps.contains((#[trigger] links[k]).library),
        a.len() == deps.len(),
        b.len() == deps.len(),
        forall|p: int| 0 <= p < deps.len() ==> (#[trigger] a[p])@ == b[p]@,
        patched_by(code, links, deps, a, out_a),
        patched_by(code, links, deps, b, out_b),
    ensures
        out_a == out_b,
{
    assert forall|x: int| 0 <= x < out_a.len() implies out_a[x] == out_b[x] by {
        if exists|k: int| 0 <= k < links.len() && covers((#[trigger] links[k]).offset as int, x) {
            let k = choose|k: int| 0 <= k < links.len() && covers((#[trigger] links[k]).offset as int, x);
            let p = choose|p: int| 0 <= p < deps.len() && deps[p] == links[k].library;
            assert(a[p]@ == b[p]@);
            assert(out_a[x] == a[p]@[x - links[k].offset]);
            assert(out_b[x] == b[p]@[x - links[k].offset]);
        }
    }
    assert(out_a =~= out_b);
}

proof fn lemma_deployed_onto(
    arts: Seq<Artifact>,
    ovs: Seq<LibraryOverride>,
    root: Seq<char>,
    deps: Seq<usize>,
    m: int,
    k: int,
)
    requires
        0 <= m <= deps.len(),
        0 <= k < deployed_before(arts, ovs, root, deps, m),
    ensures
        exists|p: int|
            0 <= p < m && !has_override(ovs, root, arts[deps[p] as int])
                && #[trigger] deployed_before(arts, ovs, root, deps, p) == k,
    decreases m,
{
    if k < deployed_before(arts, ovs, root, deps, m - 1) {
        lemma_deployed_onto(arts, ovs, root, deps, m - 1, k);
        let p = choose|p: int|
            0 <= p < m - 1 && !has_override(ovs, root, arts[deps[p] as int])
                && #[trigger] deployed_before(arts, ovs, root, deps, p) == k;
        assert(0 <= p < m);
    } else {
        assert(deployed_before(arts, ovs, root, deps, m - 1) == k);
        assert(!has_override(ovs, root, arts[deps[m - 1] as int]));
    }
}

/// Linking is a function of its inputs: two plans for the same artifacts,
/// target, overrides, root, deployer and nonce have the same target,
/// libraries, addresses, pre-deployed bytecodes and target bytecode.
pub proof fn lemma_link_deterministic(
    arts: Seq<Artifact>,
    t: TargetSpec,
    ovs: Seq<LibraryOverride>,
    root: Seq<char>,
    deployer: Seq<u8>,
    nonce: u64,
    a: LinkPlan,
    b: LinkPlan,
)
    requires
        links_valid(arts),
        plan_correct(arts, t, ovs, root, deployer, nonce, a),
        plan_correct(arts, t, ovs, root, deployer, nonce, b),
    ensures
        a.target == b.target,
        a.libraries@ == b.libraries@,
        a.addresses@.len() == b.addresses@.len(),
        forall|p: int| 0 <= p < a.addresses@.len() ==> (#[trigger] a.addresses@[p])@ == b.addresses@[p]@,
        a.bytecode@ == b.bytecode@,
        a.predeploy@.len() == b.predeploy@.len(),
        forall|k: int| 0 <= k < a.predeploy@.len() ==> (#[trigger] a.predeploy@[k])@ == b.predeploy@[k]@,
{
    assert(a.target == b.target) by {
        if a.target != b.target {
            assert(!selects(arts[b.target as int], t));
        }
    }
    let target = a.target as int;
    let deps = a.libraries@;
    assert(refs_valid(arts[target].bytecode@.len(), arts[target].links@, arts.len()));
    lemma_patched_same(
        arts[target].bytecode@,
        arts[target].links@,
        arts.len(),
        deps,
        a.addresses@,
        b.addresses@,
        a.bytecode@,
        b.bytecode@,
    );
    assert forall|k: int| 0 <= k < a.predeploy@.len() implies (#[trigger] a.predeploy@[k])@
        == b.predeploy@[k]@ by {
        lemma_deployed_onto(arts, ovs, root, deps, deps.len() as int, k);
        let p = choose|p: int|
            0 <= p < deps.len() && !has_override(ovs, root, arts[deps[p] as int])
                && #[trigger] deployed_before(arts, ovs, root, deps, p) == k;
        let d = deps[p] as int;
        assert(refs_valid(arts[d].bytecode@.len(), arts[d].links@, arts.len()));
        assert forall|j: int| 0 <= j < arts[d].links@.len() implies deps.contains(
            (#[trigger] arts[d].links@[j]).library,
        ) by {
            assert(deps.contains((arts[deps[p] as int].links@[j]).library));
        }
        lemma_patched_same(
            arts[d].bytecode@,
            arts[d].links@,
            arts.len(),
            deps,
            a.addresses@,
            b.addresses@,
            a.predeploy@[k]@,
            b.predeploy@[k]@,
        );
    }
}

} // verus!
