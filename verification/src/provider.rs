use vstd::prelude::*;
use vstd::string::StringExecFns;

use crate::text::views;
use crate::types::str_eq;

verus! {

/// A mock LLM for tests: it answers with its canned responses in turn, starting over after
/// the last one.
pub struct MockProvider {
    responses: Vec<String>,
    index: usize,
    calls: Ghost<nat>,
}

impl MockProvider {
    /// The canned responses.
    pub closed spec fn responses(&self) -> Seq<Seq<char>> {
        views(self.responses@)
    }

    /// The position of the response the next call gives.
    pub closed spec fn position(&self) -> nat {
        self.index as nat
    }

    /// How many calls the mock has answered since it was made.
    pub closed spec fn calls(&self) -> nat {
        self.calls@
    }

    /// With responses, the next position is the number of calls so far modulo their number.
    pub open spec fn wf(&self) -> bool {
        self.responses().len() > 0 ==> self.position() == self.calls() % self.responses().len()
    }

    pub fn new(responses: Vec<String>) -> (m: MockProvider)
        ensures
            m.responses() == views(responses@),
            m.calls() == 0,
            m.position() == 0,
            m.wf(),
    {
        let m = MockProvider { responses, index: 0, calls: Ghost(0) };
        proof {
            if m.responses().len() > 0 {
                vstd::arithmetic::div_mod::lemma_small_mod(0, m.responses().len());
            }
        }
        m
    }

    /// A mock that always gives the same response: made as `new` makes one with that single
    /// response.
    pub fn fixed(response: &str) -> (m: MockProvider)
        ensures
            m.responses() == seq![response@],
            m.calls() == 0,
            m.position() == 0,
            m.wf(),
    {
        let mut responses: Vec<String> = Vec::new();
        responses.push(String::from_str(response));
        proof {
            assert(views(responses@) =~= seq![response@]);
        }
        MockProvider::new(responses)
    }

    /// How many canned responses there are.
    pub fn response_count(&self) -> (n: usize)
        ensures
            n == self.responses().len(),
    {
        self.responses.len()
    }

    /// The next canned response, whatever the prompt: the call made after `k` earlier calls
    /// gives response `k` modulo the number of responses, so a mock with a single response
    /// gives it every time.
    pub fn complete(&mut self, prompt: &str, system: Option<&str>) -> (r: String)
        requires
            old(self).responses().len() > 0,
            old(self).wf(),
        ensures
            r@ == old(self).responses()[(old(self).calls() % old(self).responses().len()) as int],
            old(self).responses().len() == 1 ==> r@ == old(self).responses()[0],
            final(self).responses() == old(self).responses(),
            final(self).calls() == old(self).calls() + 1,
            final(self).position() == (old(self).position() + 1) % old(self).responses().len(),
            final(self).wf(),
    {
        let ghost len = self.responses@.len();
        let ghost k = self.calls@;
        proof {
            assert(views(self.responses@).len() == len);
            assert(views(self.responses@)[self.index as int] == self.responses@[self.index as int]@);
            lemma_next_position(k, len);
            if len == 1 {
                vstd::arithmetic::div_mod::lemma_small_mod(0, 1);
            }
        }
        let r = self.responses[self.index].clone();
        let n = self.responses.len();
        if self.index + 1 == n {
            proof {
                vstd::arithmetic::div_mod::lemma_mod_self_0(len as int);
            }
            self.index = 0;
        } else {
            proof {
                vstd::arithmetic::div_mod::lemma_small_mod((self.index + 1) as nat, len);
            }
            self.index = self.index + 1;
        }
        self.calls = Ghost(k + 1);
        proof {
            assert(views(self.responses@).len() == len);
        }
        r
    }
}

/// The mock's answers repeat with period the number of responses: the call made after
/// `k + n * len` earlier calls gives the same response as the one made after `k`.
pub proof fn mock_answers_repeat(responses: Seq<Seq<char>>, k: nat, n: nat)
    requires
        responses.len() > 0,
    ensures
        responses[((k + n * responses.len()) % responses.len()) as int] == responses[(k % responses.len()) as int],
{
    let len = responses.len() as int;
    vstd::arithmetic::div_mod::lemma_mod_multiples_vanish(n as int, k as int, len);
    vstd::arithmetic::mul::lemma_mul_is_commutative(n as int, len);
}

/// One more call moves the position one step, modulo the number of responses.
proof fn lemma_next_position(k: nat, len: nat)
    requires
        len > 0,
    ensures
        (k % len + 1) % len == (k + 1) % len,
        k % len < len,
{
    vstd::arithmetic::div_mod::lemma_add_mod_noop(k as int, 1, len as int);
    vstd::arithmetic::div_mod::lemma_add_mod_noop((k % len) as int, 1, len as int);
    vstd::arithmetic::div_mod::lemma_mod_twice(k as int, len as int);
    vstd::arithmetic::div_mod::lemma_mod_bound(k as int, len as int);
}

/// Providers registered by model name; a lookup finds the first one registered under a name.
pub struct MultiProvider<P> {
    providers: Vec<(String, P)>,
}

impl<P> MultiProvider<P> {
    /// The registered model names, in order.
    pub closed spec fn names(&self) -> Seq<Seq<char>> {
        self.providers@.map_values(|e: (String, P)| e.0@)
    }

    /// The registered providers, in order.
    pub closed spec fn backends(&self) -> Seq<P> {
        self.providers@.map_values(|e: (String, P)| e.1)
    }

    pub fn new() -> (m: MultiProvider<P>)
        ensures
            m.names() == Seq::<Seq<char>>::empty(),
            m.backends() == Seq::<P>::empty(),
    {
        let m = MultiProvider { providers: Vec::new() };
        proof {
            assert(m.names() =~= Seq::<Seq<char>>::empty());
            assert(m.backends() =~= Seq::<P>::empty());
        }
        m
    }

    /// Registers a provider for a model name.
    pub fn add(self, model: &str, provider: P) -> (m: MultiProvider<P>)
        ensures
            m.names() == self.names().push(model@),
            m.backends() == self.backends().push(provider),
    {
        let mut providers = self.providers;
        let ghost before = providers@;
        providers.push((String::from_str(model), provider));
        let m = MultiProvider { providers };
        proof {
            assert(m.names() =~= self.names().push(model@));
            assert(m.backends() =~= self.backends().push(provider));
        }
        m
    }

    /// The first provider registered for a model name.
    pub fn get(&self, model: &str) -> (r: Option<&P>)
        ensures
            r is None <==> !self.names().contains(model@),
            r matches Some(p) ==> exists|i: int| {
                &&& 0 <= i < self.names().len()
                &&& self.names()[i] == model@
                &&& *p == self.backends()[i]
                &&& forall|j: int| 0 <= j < i ==> self.names()[j] != model@
            },
    {
        let mut i: usize = 0;
        while i < self.providers.len()
            invariant
                i <= self.providers@.len(),
                forall|j: int| 0 <= j < i ==> self.names()[j] != model@,
            decreases self.providers@.len() - i,
        {
            if str_eq(self.providers[i].0.as_str(), model) {
                proof {
                    assert(self.names()[i as int] == model@);
                    assert(self.backends()[i as int] == self.providers@[i as int].1);
                }
                return Some(&self.providers[i].1);
            }
            i = i + 1;
        }
        proof {
            if self.names().contains(model@) {
                let k = choose|k: int| 0 <= k < self.names().len() && self.names()[k] == model@;
                assert(self.names()[k] != model@);
            }
        }
        None
    }

    /// How many providers are registered.
    pub fn len(&self) -> (n: usize)
        ensures
            n == self.names().len(),
    {
        self.providers.len()
    }

    /// The name and provider of registration `i`, in the order of registration.
    pub fn entry(&self, i: usize) -> (r: (&String, &P))
        requires
            i < self.names().len(),
        ensures
            r.0@ == self.names()[i as int],
            *r.1 == self.backends()[i as int],
    {
        (&self.providers[i].0, &self.providers[i].1)
    }

    /// The registered model names, in order.
    pub fn models(&self) -> (r: Vec<String>)
        ensures
            views(r@) == self.names(),
    {
        let mut r: Vec<String> = Vec::new();
        let mut i: usize = 0;
        while i < self.providers.len()
            invariant
                i <= self.providers@.len(),
                views(r@) == self.names().take(i as int),
            decreases self.providers@.len() - i,
        {
            let ghost before = views(r@);
            r.push(self.providers[i].0.clone());
            proof {
                assert(views(r@) =~= before.push(self.providers@[i as int].0@));
                assert(views(r@) =~= self.names().take(i + 1));
            }
            i = i + 1;
        }
        proof {
            assert(self.names().take(self.providers@.len() as int) =~= self.names());
        }
        r
    }
}

} // verus!
