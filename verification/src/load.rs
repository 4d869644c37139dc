//! Conversions from a skill author's intent declarations to the wire NLU
//! records. Reading declaration files from disk and parsing them is the
//! surrounding program's business; the shapes and their conversion to the
//! wire form live here.
use vstd::prelude::*;

use crate::structures::Language;
use crate::structures::NluData;
use crate::structures::NluDataEntity;
use crate::structures::NluDataEntityData;
use crate::structures::NluDataIntent;
use crate::structures::NluDataIntentUtterance;
use crate::structures::NluDataSlot;
use crate::structures::SpecNluDataEntity;
use crate::structures::SpecNluDataIntent;

verus! {

/// A declared intent: its utterance templates and slot-to-entity names.
#[derive(Clone, Debug)]
pub struct IntentData {
    pub utterances: Vec<String>,
    pub slots: Option<Vec<NluDataSlot>>,
}

pub struct SpecIntentData {
    pub utterances: Seq<Seq<char>>,
    pub slots: Option<Seq<crate::structures::SpecNluDataSlot>>,
}

impl View for IntentData {
    type V = SpecIntentData;

    open spec fn view(&self) -> SpecIntentData {
        SpecIntentData { utterances: self.utterances.deep_view(), slots: self.slots.deep_view() }
    }
}

/// A declared entity: its admissible values and synonyms.
#[derive(Clone, Debug)]
pub struct EntityData {
    pub data: Vec<NluDataEntityData>,
}

/// One named intent of a scope.
#[derive(Clone, Debug)]
pub struct ScopeIntent {
    pub name: String,
    pub data: IntentData,
}

/// One named scope of a language's declarations.
#[derive(Clone, Debug)]
pub struct Scope {
    pub name: String,
    pub intents: Vec<ScopeIntent>,
}

/// One named entity of a language's declarations.
#[derive(Clone, Debug)]
pub struct NamedEntity {
    pub name: String,
    pub data: EntityData,
}

/// A language's declarations: scopes of intents, plus entities.
#[derive(Clone, Debug)]
pub struct LangData {
    pub scopes: Vec<Scope>,
    pub entities: Vec<NamedEntity>,
}

impl IntentData {
    /// What this declaration becomes on the wire.
    pub open spec fn spec_into_vap(self, name: Seq<char>) -> SpecNluDataIntent {
        SpecNluDataIntent {
            name,
            utterances: self@.utterances,
            slots: match self@.slots {
                Some(s) => s,
                None => Seq::empty(),
            },
        }
    }

    /// Turns the declaration into a wire intent record: the utterances in
    /// order, and the slots as declared, or none.
    pub fn into_vap(self, name: String) -> (r: NluDataIntent)
        ensures
            r.deep_view() == self.spec_into_vap(name@),
    {
        let ghost sself = self;
        let IntentData { utterances, slots } = self;
        let ghost uts0 = utterances@;
        let mut utts: Vec<NluDataIntentUtterance> = Vec::new();
        let mut rest = utterances;
        let n = rest.len();
        let mut i: usize = 0;
        while i < n
            invariant
                0 <= i <= n,
                n == uts0.len(),
                rest@ == uts0.skip(i as int),
                utts@.len() == i,
                forall|j: int| 0 <= j < i ==> (#[trigger] utts@[j]).text == uts0[j],
            decreases n - i,
        {
            let u = rest.remove(0);
            proof {
                assert(uts0.skip(i as int)[0] == uts0[i as int]);
                assert(rest@ =~= uts0.skip(i + 1));
            }
            utts.push(NluDataIntentUtterance { text: u });
            i = i + 1;
        }
        let out_slots = match slots {
            Some(s) => s,
            None => Vec::new(),
        };
        let r = NluDataIntent { name, utterances: utts, slots: out_slots };
        proof {
            assert(r.deep_view().utterances =~= sself@.utterances);
            assert(r.deep_view().slots =~= self.spec_into_vap(name@).slots);
        }
        r
    }
}

impl EntityData {
    /// What this declaration becomes on the wire.
    pub open spec fn spec_into_vap(self, name: Seq<char>) -> SpecNluDataEntity {
        SpecNluDataEntity { name, strict: false, data: self.data.deep_view() }
    }

    /// Turns the declaration into a wire entity record: never strict, data
    /// as declared.
    pub fn into_vap(self, name: String) -> (r: NluDataEntity)
        ensures
            r.deep_view() == self.spec_into_vap(name@),
    {
        let EntityData { data } = self;
        NluDataEntity { name, strict: false, data }
    }
}

/// The position of the first scope named `main` in a list of scopes.
pub open spec fn spec_first_main(s: Seq<Scope>) -> int
    decreases s.len(),
{
    if s.len() == 0 {
        0
    } else if s[0].name@ == "main"@ {
        0
    } else {
        1 + spec_first_main(s.drop_first())
    }
}

/// Pins the first-main position: the index of a `main` scope with no
/// earlier one.
proof fn lemma_first_main(s: Seq<Scope>, k: int)
    requires
        0 <= k < s.len(),
        s[k].name@ == "main"@,
        forall|j: int| 0 <= j < k ==> (#[trigger] s[j]).name@ != "main"@,
    ensures
        spec_first_main(s) == k,
    decreases k,
{
    if k > 0 {
        assert(s[0].name@ != "main"@);
        assert(s.drop_first()[k - 1] == s[k]);
        assert forall|j: int| 0 <= j < k - 1 implies (#[trigger] s.drop_first()[j]).name@
            != "main"@ by {
            assert(s.drop_first()[j] == s[j + 1]);
        }
        lemma_first_main(s.drop_first(), k - 1);
    }
}

impl LangData {
    /// The position of the scope all intents are read from: the first
    /// scope named `main`.
    pub open spec fn spec_main_scope(self) -> int {
        spec_first_main(self.scopes@)
    }

    /// Whether a scope named `main` is declared.
    pub open spec fn has_main_scope(self) -> bool {
        exists|i: int| 0 <= i < self.scopes@.len() && (#[trigger] self.scopes@[i]).name@ == "main"@
    }

    /// Turns a language's declarations into one wire NLU record: the
    /// intents of the first `main` scope and all entities, each converted
    /// in declaration order.
    pub fn into_nlu_data(self, language: Language) -> (r: NluData)
        requires
            self.has_main_scope(),
        ensures
            r.deep_view().language == language@,
            ({
                let scope = self.scopes@[self.spec_main_scope()];
                &&& r.deep_view().intents.len() == scope.intents@.len()
                &&& forall|i: int|
                    0 <= i < scope.intents@.len() ==> r.deep_view().intents[i] == (
                    #[trigger] scope.intents@[i]).data.spec_into_vap(scope.intents@[i].name@)
            }),
            r.deep_view().entities.len() == self.entities@.len(),
            forall|i: int|
                0 <= i < self.entities@.len() ==> r.deep_view().entities[i] == (
                #[trigger] self.entities@[i]).data.spec_into_vap(self.entities@[i].name@),
    {
        let ghost sself = self;
        let LangData { scopes, entities } = self;
        let main = String::from_str("main");
        let mut rest = scopes;
        let mut intents: Vec<NluDataIntent> = Vec::new();
        let mut found = false;
        proof {
            assert(sself.scopes@.skip(0) =~= sself.scopes@);
        }
        while !found
            invariant
                main@ == "main"@,
                sself.has_main_scope(),
                !found ==> rest@.len() > 0,
                !found ==> intents@.len() == 0,
                rest@.len() <= sself.scopes@.len(),
                !found ==> rest@ == sself.scopes@.skip(sself.scopes@.len() - rest@.len()),
                !found ==> (exists|i: int|
                    0 <= i < rest@.len() && (#[trigger] rest@[i]).name@ == "main"@),
                !found ==> (forall|j: int|
                    0 <= j < sself.scopes@.len() - rest@.len() ==> (
                    #[trigger] sself.scopes@[j]).name@ != "main"@),
                found ==> ({
                    let scope = sself.scopes@[sself.spec_main_scope()];
                    &&& intents@.len() == scope.intents@.len()
                    &&& forall|i: int|
                        0 <= i < scope.intents@.len() ==> intents.deep_view()[i] == (
                        #[trigger] scope.intents@[i]).data.spec_into_vap(scope.intents@[i].name@)
                }),
            decreases rest@.len(),
        {
            let ghost rest0 = rest@;
            let ghost consumed = sself.scopes@.len() - rest0.len();
            let sc = rest.remove(0);
            proof {
                assert(sself.scopes@.skip(consumed)[0] == sself.scopes@[consumed]);
                assert(rest0[0] == sself.scopes@[consumed]);
                assert(rest@ =~= sself.scopes@.skip(consumed + 1));
            }
            if sc.name == main {
                proof {
                    lemma_first_main(sself.scopes@, consumed);
                    assert(sself.scopes@[consumed] == sc);
                }
                let ghost the_scope = sc;
                let mut sc_intents = sc.intents;
                proof {
                    assert(the_scope.intents@.skip(0) =~= the_scope.intents@);
                }
                let n = sc_intents.len();
                let mut i: usize = 0;
                while i < n
                    invariant
                        0 <= i <= n,
                        n == the_scope.intents@.len(),
                        sc_intents@ == the_scope.intents@.skip(i as int),
                        intents@.len() == i,
                        forall|j: int|
                            0 <= j < i ==> intents.deep_view()[j] == (
                            #[trigger] the_scope.intents@[j]).data.spec_into_vap(
                                the_scope.intents@[j].name@,
                            ),
                    decreases n - i,
                {
                    let entry = sc_intents.remove(0);
                    proof {
                        assert(the_scope.intents@.skip(i as int)[0] == the_scope.intents@[
                        i as int]);
                        assert(sc_intents@ =~= the_scope.intents@.skip(i + 1));
                    }
                    let ghost gentry = entry;
                    let ScopeIntent { name: iname, data: idata } = entry;
                    let converted = idata.into_vap(iname);
                    intents.push(converted);
                    proof {
                        assert(intents.deep_view()[i as int] == converted.deep_view());
                        assert forall|j: int|
                            0 <= j < i + 1 implies intents.deep_view()[j] == (
                        #[trigger] the_scope.intents@[j]).data.spec_into_vap(
                            the_scope.intents@[j].name@,
                        ) by {
                            if j < i {
                                assert(intents.deep_view()[j] == intents@[j].deep_view());
                            }
                        }
                    }
                    i = i + 1;
                }
                found = true;
            } else {
                proof {
                    let w = choose|i: int|
                        0 <= i < rest0.len() && (#[trigger] rest0[i]).name@ == "main"@;
                    assert(sc.name@ != main@);
                    assert(rest0[0].name@ != "main"@);
                    assert(w != 0);
                    assert(rest@[w - 1] == rest0[w]);
                    assert(exists|i: int|
                        0 <= i < rest@.len() && (#[trigger] rest@[i]).name@ == "main"@);
                    assert forall|j: int|
                        0 <= j < sself.scopes@.len() - rest@.len() implies (
                    #[trigger] sself.scopes@[j]).name@ != "main"@ by {
                        if j == consumed {
                            assert(sself.scopes@[j] == sc);
                        }
                    }
                }
            }
        }
        let mut ents: Vec<NluDataEntity> = Vec::new();
        let mut erest = entities;
        let ghost eall = sself.entities@;
        proof {
            assert(eall.skip(0) =~= eall);
        }
        let en = erest.len();
        let mut i: usize = 0;
        while i < en
            invariant
                0 <= i <= en,
                en == eall.len(),
                erest@ == eall.skip(i as int),
                ents@.len() == i,
                forall|j: int|
                    0 <= j < i ==> ents.deep_view()[j] == (#[trigger] eall[j]).data.spec_into_vap(
                        eall[j].name@,
                    ),
            decreases en - i,
        {
            let entry = erest.remove(0);
            proof {
                assert(eall.skip(i as int)[0] == eall[i as int]);
                assert(erest@ =~= eall.skip(i + 1));
            }
            let NamedEntity { name: ename, data: edata } = entry;
            let converted = edata.into_vap(ename);
            ents.push(converted);
            proof {
                assert(ents.deep_view()[i as int] == converted.deep_view());
                assert forall|j: int|
                    0 <= j < i + 1 implies ents.deep_view()[j] == (
                #[trigger] eall[j]).data.spec_into_vap(eall[j].name@) by {
                    if j < i {
                        assert(ents.deep_view()[j] == ents@[j].deep_view());
                    }
                }
            }
            i = i + 1;
        }
        let r = NluData { language, intents, entities: ents };
        proof {
            assert(r.deep_view().intents.len() == intents@.len());
        }
        r
    }
}

} // verus!
