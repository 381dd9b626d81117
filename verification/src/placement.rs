//! Où chaque triangle vit en mémoire — et pourquoi son adresse ne bouge pas.
//!
//! Les subdivisions ne prennent que neuf valeurs, donc les blocs ne prennent que neuf tailles.
//! Chaque classe garde la pile de ses blocs libres ; un triangle qui change de subdivision rend son
//! bloc à sa classe et en prend un dans la nouvelle. **Un triangle qui ne change pas ne bouge
//! pas.** Quand l'arène dépasse le budget alors que la fragmentation y est pour quelque chose, elle
//! est remise à plat : tous les triangles sont replacés dans l'ordre, sans trou.

use vstd::prelude::*;
use vstd::arithmetic::power2::pow2;
use vstd::multiset::Multiset;
use crate::allocation::{Plan, K_MAX, lemme_micro_sommets_croissant};
use crate::surface::{micro_sommets, micro_sommets_de, OCTETS_PAR_ENTREE};

verus! {

/// Le nombre de classes de taille : une par subdivision possible.
pub const CLASSES: usize = 9;

/// Par triangle, `(base, k)` ou rien.
pub type Occupation = Seq<Option<(u32, u32)>>;

/// Par classe, la pile des bases des blocs libres.
pub type Libres = Seq<Seq<u32>>;

/// Les entrées d'un bloc de classe `k`.
pub open spec fn taille(k: u32) -> int {
    micro_sommets_de(k as nat)
}

/// Deux plages `[b1, b1 + s1)` et `[b2, b2 + s2)` ne se recouvrent pas.
pub open spec fn disjoints(b1: int, s1: int, b2: int, s2: int) -> bool {
    b1 + s1 <= b2 || b2 + s2 <= b1
}

/// L'état d'un placement est cohérent : chaque bloc, occupé ou libre, tient sous le sommet de
/// l'arène, et **aucun bloc n'en recouvre un autre**.
pub open spec fn bien_forme(occ: Occupation, libres: Libres, sommet: int) -> bool {
    &&& libres.len() == CLASSES
    &&& occ.len() <= u32::MAX
    &&& 0 <= sommet <= u32::MAX
    &&& forall|t: int| 0 <= t < occ.len() && (#[trigger] occ[t]).is_some() ==> {
        &&& occ[t].unwrap().1 <= K_MAX
        &&& occ[t].unwrap().0 + taille(occ[t].unwrap().1) <= sommet
    }
    &&& forall|c: int, i: int| 0 <= c < CLASSES && 0 <= i < libres[c].len()
        ==> #[trigger] libres[c][i] + taille(c as u32) <= sommet
    &&& forall|t1: int, t2: int|
        0 <= t1 < occ.len() && 0 <= t2 < occ.len() && t1 != t2
        && (#[trigger] occ[t1]).is_some() && (#[trigger] occ[t2]).is_some()
        ==> disjoints(occ[t1].unwrap().0 as int, taille(occ[t1].unwrap().1),
                      occ[t2].unwrap().0 as int, taille(occ[t2].unwrap().1))
    &&& forall|t: int, c: int, i: int|
        0 <= t < occ.len() && (#[trigger] occ[t]).is_some() && 0 <= c < CLASSES
        && 0 <= i < libres[c].len()
        ==> disjoints(occ[t].unwrap().0 as int, taille(occ[t].unwrap().1),
                      #[trigger] libres[c][i] as int, taille(c as u32))
    &&& forall|c1: int, i1: int, c2: int, i2: int|
        0 <= c1 < CLASSES && 0 <= i1 < libres[c1].len()
        && 0 <= c2 < CLASSES && 0 <= i2 < libres[c2].len() && (c1 != c2 || i1 != i2)
        ==> disjoints(#[trigger] libres[c1][i1] as int, taille(c1 as u32),
                      #[trigger] libres[c2][i2] as int, taille(c2 as u32))
}

/// Les subdivisions voulues sont toutes des classes.
pub open spec fn classes_valides(k: Seq<u32>) -> bool {
    forall|i: int| 0 <= i < k.len() ==> #[trigger] k[i] <= K_MAX
}

/// Première passe : les triangles `0 .. t` qui changent de classe rendent leur bloc, empilé sur
/// la pile de leur ancienne classe.
pub open spec fn liberer(occ: Occupation, libres: Libres, k: Seq<u32>, t: nat) -> (Occupation, Libres)
    decreases t,
{
    if t == 0 {
        (occ, libres)
    } else {
        let (o, l) = liberer(occ, libres, k, (t - 1) as nat);
        let i = t - 1;
        if o[i].is_some() && o[i].unwrap().1 != k[i] {
            let (b, a) = o[i].unwrap();
            (o.update(i, None), l.update(a as int, l[a as int].push(b)))
        } else {
            (o, l)
        }
    }
}

/// Seconde passe : les triangles `0 .. t` sans bloc en reçoivent un de leur classe — le dernier
/// rendu s'il y en a, sinon un neuf pris au sommet de l'arène. Rend aussi la liste des relogés et
/// les entrées qu'ils représentent.
pub open spec fn servir(occ: Occupation, libres: Libres, sommet: int, k: Seq<u32>, t: nat)
    -> (Occupation, Libres, int, Seq<u32>, int)
    decreases t,
{
    if t == 0 {
        (occ, libres, sommet, Seq::empty(), 0)
    } else {
        let (o, l, s, r, e) = servir(occ, libres, sommet, k, (t - 1) as nat);
        let i = t - 1;
        let c = k[i] as int;
        if o[i].is_none() {
            if l[c].len() > 0 {
                (o.update(i, Some((l[c].last(), k[i]))), l.update(c, l[c].drop_last()), s,
                 r.push(i as u32), e + taille(k[i]))
            } else {
                (o.update(i, Some((s as u32, k[i]))), l, s + taille(k[i]), r.push(i as u32),
                 e + taille(k[i]))
            }
        } else {
            (o, l, s, r, e)
        }
    }
}

/// Le total des entrées des blocs occupés.
pub open spec fn entrees_occupees(occ: Occupation) -> int
    decreases occ.len(),
{
    if occ.len() == 0 {
        0
    } else {
        entrees_occupees(occ.drop_last()) + match occ.last() {
            Some((_, k)) => taille(k),
            None => 0,
        }
    }
}

/// Le total des entrées de triangles de classes `k`.
pub open spec fn total_des_tailles(k: Seq<u32>) -> int
    decreases k.len(),
{
    if k.len() == 0 { 0 } else { total_des_tailles(k.drop_last()) + taille(k.last()) }
}

/// La base du triangle `t` quand l'arène est remise à plat.
pub open spec fn base_compacte(k: Seq<u32>, t: int) -> int {
    total_des_tailles(k.subrange(0, t))
}

/// L'état après les deux passes d'une mise à jour, avant tout compactage.
pub open spec fn apres_les_passes(occ: Occupation, libres: Libres, sommet: int, k: Seq<u32>)
    -> (Occupation, Libres, int, Seq<u32>, int)
{
    let (o1, l1) = liberer(occ, libres, k, k.len());
    servir(o1, l1, sommet, k, k.len())
}

/// La mise à jour doit-elle remettre l'arène à plat ? Seulement si l'arène dépasse le budget
/// **et** que la fragmentation y est pour quelque chose.
pub open spec fn doit_compacter(occ: Occupation, libres: Libres, sommet: int, k: Seq<u32>, budget: int)
    -> bool
{
    let etat = apres_les_passes(occ, libres, sommet, k);
    &&& etat.2 * OCTETS_PAR_ENTREE > budget
    &&& entrees_occupees(etat.0) * OCTETS_PAR_ENTREE < etat.2 * OCTETS_PAR_ENTREE
}

/// Où chaque triangle vit, et ce qui reste libre.
pub struct Placement {
    /// Par classe, les bases des blocs libres. Une pile : le dernier rendu est le premier repris.
    libres: Vec<Vec<u32>>,
    /// La première entrée jamais allouée — le sommet de l'arène.
    sommet: u32,
    /// Par triangle : `(base, k)`, ou `None` tant qu'il n'a rien reçu.
    occupe: Vec<Option<(u32, u32)>>,
    /// Combien de fois l'arène a été remise à plat.
    pub compactages: u32,
}

/// Ce qu'une mise à jour a changé.
pub struct Deplacement {
    /// Les triangles dont le bloc a changé — leur contenu est à recalculer entièrement.
    pub reloges: Vec<u32>,
    /// L'arène a été remise à plat pendant cette mise à jour : tout est à recalculer.
    pub compacte: bool,
    /// Les entrées que ces triangles représentent.
    pub entrees_relogees: u64,
    /// Le total des entrées occupées après la mise à jour.
    pub entrees_totales: u64,
}

impl Placement {
    /// Par triangle, son bloc.
    pub closed spec fn occupation(&self) -> Occupation {
        self.occupe@
    }

    /// Par classe, la pile de ses blocs libres.
    pub closed spec fn piles_libres(&self) -> Libres {
        self.libres@.map_values(|v: Vec<u32>| v@)
    }

    /// Le sommet de l'arène.
    pub closed spec fn sommet_de_l_arene(&self) -> int {
        self.sommet as int
    }

    /// Combien de fois l'arène a été remise à plat.
    pub closed spec fn compte_des_compactages(&self) -> int {
        self.compactages as int
    }

    /// Le placement est cohérent.
    pub closed spec fn wf(&self) -> bool {
        &&& self.libres@.len() == CLASSES
        &&& bien_forme(self.occupation(), self.piles_libres(), self.sommet as int)
        &&& sans_perte(self.occupation(), self.piles_libres(), self.sommet as int)
    }

    /// Un placement de `triangles` triangles, qui n'ont encore rien reçu.
    pub fn nouveau(triangles: usize) -> (p: Self)
        requires
            triangles <= u32::MAX,
        ensures
            p.wf(),
            p.occupation() == Seq::new(triangles as nat, |t: int| None::<(u32, u32)>),
            p.piles_libres() == Seq::new(CLASSES as nat, |c: int| Seq::<u32>::empty()),
            p.sommet_de_l_arene() == 0,
            p.compte_des_compactages() == 0,
    {
        let mut libres: Vec<Vec<u32>> = Vec::new();
        let mut c: usize = 0;
        while c < CLASSES
            invariant
                c <= CLASSES,
                libres@.len() == c,
                forall|j: int| 0 <= j < c ==> (#[trigger] libres@[j])@ == Seq::<u32>::empty(),
            decreases CLASSES - c,
        {
            libres.push(Vec::new());
            c = c + 1;
        }
        let mut occupe: Vec<Option<(u32, u32)>> = Vec::new();
        let mut t: usize = 0;
        while t < triangles
            invariant
                t <= triangles,
                occupe@.len() == t,
                forall|j: int| 0 <= j < t ==> (#[trigger] occupe@[j]).is_none(),
            decreases triangles - t,
        {
            occupe.push(None);
            t = t + 1;
        }
        let p = Placement { libres, sommet: 0, occupe, compactages: 0 };
        assert(p.occupation() =~= Seq::new(triangles as nat, |t: int| None::<(u32, u32)>));
        assert(p.piles_libres() =~= Seq::new(CLASSES as nat, |c: int| Seq::<u32>::empty()));
        proof {
            lemme_rien_n_est_compte(p.occupation(), p.piles_libres(), CLASSES as nat);
        }
        p
    }

    /// L'adresse et la subdivision d'un triangle.
    pub fn bloc(&self, triangle: u32) -> (r: Option<(u32, u32)>)
        requires
            triangle < self.occupation().len(),
        ensures
            r == self.occupation()[triangle as int],
    {
        self.occupe[triangle as usize]
    }

    /// Les octets utiles — ceux que des triangles occupent vraiment.
    pub fn utile(&self) -> (r: u64)
        requires
            self.wf(),
        ensures
            r == entrees_occupees(self.occupation()) * OCTETS_PAR_ENTREE,
    {
        let mut somme: u64 = 0;
        let mut t: usize = 0;
        proof {
            lemme_entrees_bornees(self.occupation());
        }
        while t < self.occupe.len()
            invariant
                self.wf(),
                t <= self.occupe@.len(),
                somme == entrees_occupees(self.occupation().subrange(0, t as int)),
            decreases self.occupe@.len() - t,
        {
            let ghost pre = self.occupation().subrange(0, t as int + 1);
            proof {
                assert(pre.drop_last() =~= self.occupation().subrange(0, t as int));
                lemme_entrees_bornees(pre.drop_last());
                assert(self.occupation().len() <= u32::MAX);
            }
            match self.occupe[t] {
                Some((_, k)) => {
                    proof {
                        assert(self.occupation()[t as int].is_some());
                    }
                    let taille = micro_sommets(k);
                    proof {
                        lemme_taille_bornee(k);
                        assert(somme <= t * 33153);
                    }
                    somme = somme + taille as u64;
                }
                None => {}
            }
            t = t + 1;
        }
        proof {
            assert(self.occupation().subrange(0, t as int) =~= self.occupation());
            assert(somme <= u32::MAX * 33153);
        }
        somme * OCTETS_PAR_ENTREE
    }

    /// Donne à chaque triangle la subdivision qu'il veut, et dit qui a dû déménager.
    ///
    /// On libère tout avant d'allouer quoi que ce soit : un triangle qui rétrécit rend son bloc
    /// avant qu'un autre ne pousse le sommet pour rien. Si l'arène finit au-dessus du budget alors
    /// que des trous y sont pour quelque chose, elle est remise à plat — tout est à recalculer
    /// cette fois-là, mais l'empreinte redevient bornée.
    pub fn mettre_a_jour(&mut self, k_voulu: &[u32], budget_octets: u64) -> (d: Deplacement)
        requires
            old(self).wf(),
            k_voulu@.len() == old(self).occupation().len(),
            classes_valides(k_voulu@),
            apres_les_passes(old(self).occupation(), old(self).piles_libres(),
                old(self).sommet_de_l_arene(), k_voulu@).2 <= u32::MAX,
            doit_compacter(old(self).occupation(), old(self).piles_libres(),
                old(self).sommet_de_l_arene(), k_voulu@, budget_octets as int)
                ==> old(self).compte_des_compactages() < u32::MAX,
        ensures
            final(self).wf(),
            ({
                let etat = apres_les_passes(old(self).occupation(), old(self).piles_libres(),
                    old(self).sommet_de_l_arene(), k_voulu@);
                if !doit_compacter(old(self).occupation(), old(self).piles_libres(),
                    old(self).sommet_de_l_arene(), k_voulu@, budget_octets as int) {
                    &&& final(self).occupation() == etat.0
                    &&& final(self).piles_libres() == etat.1
                    &&& final(self).sommet_de_l_arene() == etat.2
                    &&& final(self).compte_des_compactages() == old(self).compte_des_compactages()
                    &&& d.reloges@ == etat.3
                    &&& !d.compacte
                    &&& d.entrees_relogees == etat.4
                } else {
                    &&& final(self).occupation() == occupation_compacte(k_voulu@)
                    &&& final(self).piles_libres() == Seq::new(CLASSES as nat, |c: int| Seq::<u32>::empty())
                    &&& final(self).sommet_de_l_arene() == total_des_tailles(k_voulu@)
                    &&& final(self).compte_des_compactages() == old(self).compte_des_compactages() + 1
                    &&& d.reloges@ == Seq::new(k_voulu@.len(), |t: int| t as u32)
                    &&& d.compacte
                    &&& d.entrees_relogees == total_des_tailles(k_voulu@)
                }
            }),
            d.entrees_totales == total_des_tailles(k_voulu@),
            d.compacte == doit_compacter(old(self).occupation(), old(self).piles_libres(),
                old(self).sommet_de_l_arene(), k_voulu@, budget_octets as int),
            final(self).occupation().len() == old(self).occupation().len(),
            forall|t: int| 0 <= t < final(self).occupation().len() ==> {
                &&& (#[trigger] final(self).occupation()[t]) is Some
                &&& final(self).occupation()[t].unwrap().1 == k_voulu@[t]
                &&& final(self).occupation()[t].unwrap().0 + taille(k_voulu@[t])
                    <= final(self).sommet_de_l_arene()
            },
            entrees_occupees(final(self).occupation()) == total_des_tailles(k_voulu@),
            final(self).sommet_de_l_arene() * OCTETS_PAR_ENTREE <= budget_octets
                || final(self).sommet_de_l_arene() == entrees_occupees(final(self).occupation()),
            !d.compacte ==> {
                &&& forall|t: int| 0 <= t < k_voulu@.len() && (#[trigger] old(self).occupation()[t]) is Some
                    && old(self).occupation()[t].unwrap().1 == k_voulu@[t]
                    ==> final(self).occupation()[t] == old(self).occupation()[t]
                &&& d.reloges@ == a_reloger(old(self).occupation(), k_voulu@, k_voulu@.len())
                &&& d.entrees_relogees == entrees_des(d.reloges@, k_voulu@)
            },
    {
        let n = k_voulu.len();
        let ghost occ0 = self.occupation();
        let ghost lib0 = self.piles_libres();
        let ghost s0 = self.sommet as int;

        // Passe 1 — rendre les blocs de ceux qui changent de classe.
        let mut t: usize = 0;
        while t < n
            invariant
                t <= n,
                n == k_voulu@.len(),
                occ0.len() == n,
                bien_forme(occ0, lib0, s0),
                classes_valides(k_voulu@),
                self.libres@.len() == CLASSES,
                self.sommet == s0,
                self.compactages == old(self).compactages,
                self.occupation() == liberer(occ0, lib0, k_voulu@, t as nat).0,
                self.piles_libres() == liberer(occ0, lib0, k_voulu@, t as nat).1,
            decreases n - t,
        {
            proof {
                lemme_liberer(occ0, lib0, s0, k_voulu@, t as nat);
            }
            if let Some((base, ancien)) = self.occupe[t] {
                if ancien != k_voulu[t] {
                    proof {
                        assert(self.occupation()[t as int].is_some());
                        lemme_vue_des_piles(self.libres@, ancien as int,
                            self.libres@[ancien as int]);
                    }
                    let ghost avant = self.libres@;
                    self.libres[ancien as usize].push(base);
                    proof {
                        assert(self.libres@ == avant.update(ancien as int,
                            self.libres@[ancien as int]));
                        lemme_vue_des_piles(avant, ancien as int, self.libres@[ancien as int]);
                    }
                    self.occupe.set(t, None);
                }
            }
            t = t + 1;
        }
        proof {
            lemme_liberer(occ0, lib0, s0, k_voulu@, n as nat);
        }
        let ghost occ1 = self.occupation();
        let ghost lib1 = self.piles_libres();

        // Passe 2 — servir ceux qui n'ont rien.
        let mut reloges: Vec<u32> = Vec::new();
        let mut entrees_relogees: u64 = 0;
        let mut t: usize = 0;
        proof {
            lemme_total_borne(k_voulu@);
        }
        while t < n
            invariant
                t <= n,
                n == k_voulu@.len(),
                occ1.len() == n,
                n <= u32::MAX,
                bien_forme(occ1, lib1, s0),
                classes_valides(k_voulu@),
                servir(occ1, lib1, s0, k_voulu@, n as nat).2 <= u32::MAX,
                total_des_tailles(k_voulu@) <= n * 33153,
                self.libres@.len() == CLASSES,
                self.compactages == old(self).compactages,
                self.occupation() == servir(occ1, lib1, s0, k_voulu@, t as nat).0,
                self.piles_libres() == servir(occ1, lib1, s0, k_voulu@, t as nat).1,
                self.sommet as int == servir(occ1, lib1, s0, k_voulu@, t as nat).2,
                reloges@ == servir(occ1, lib1, s0, k_voulu@, t as nat).3,
                entrees_relogees as int == servir(occ1, lib1, s0, k_voulu@, t as nat).4,
            decreases n - t,
        {
            proof {
                lemme_servir(occ1, lib1, s0, k_voulu@, t as nat);
                lemme_servir(occ1, lib1, s0, k_voulu@, (t + 1) as nat);
                lemme_total_prefixe(k_voulu@, t as int + 1);
            }
            if self.occupe[t].is_none() {
                let k = k_voulu[t];
                let taille = micro_sommets(k);
                let ghost avant = self.libres@;
                let base = match self.libres[k as usize].pop() {
                    Some(libre) => libre,
                    None => {
                        let base = self.sommet;
                        self.sommet = self.sommet + taille;
                        base
                    }
                };
                proof {
                    assert(self.libres@ == avant.update(k as int, self.libres@[k as int]));
                    lemme_vue_des_piles(avant, k as int, self.libres@[k as int]);
                }
                self.occupe.set(t, Some((base, k)));
                reloges.push(t as u32);
                entrees_relogees = entrees_relogees + taille as u64;
            }
            t = t + 1;
        }
        proof {
            lemme_servir(occ1, lib1, s0, k_voulu@, n as nat);
            lemme_les_passes_ne_perdent_rien(occ0, lib0, s0, k_voulu@);
            lemme_ce_que_les_passes_garantissent(occ0, lib0, s0, k_voulu@, budget_octets as int);
            lemme_entrees_des_reloges(occ1, lib1, s0, k_voulu@, n as nat);
        }
        let entrees_totales = total_exec(k_voulu);

        // Le compactage, si et seulement s'il peut servir à quelque chose.
        if self.empreinte() > budget_octets && self.utile() < self.empreinte() {
            proof {
                lemme_occupees_egal_total(self.occupation(), k_voulu@);
            }
            self.compacter(k_voulu);
            proof {
                lemme_l_empreinte_reste_bornee(occ0, lib0, s0, k_voulu@, budget_octets as int);
                lemme_bien_forme_et_sans_perte(self);
            }
            let mut tous: Vec<u32> = Vec::new();
            let mut t: usize = 0;
            while t < n
                invariant
                    t <= n,
                    n <= u32::MAX,
                    tous@ == Seq::new(t as nat, |j: int| j as u32),
                decreases n - t,
            {
                tous.push(t as u32);
                t = t + 1;
                proof {
                    assert(tous@ =~= Seq::new(t as nat, |j: int| j as u32));
                }
            }
            return Deplacement {
                reloges: tous,
                compacte: true,
                entrees_relogees: entrees_totales,
                entrees_totales,
            };
        }

        Deplacement { reloges, compacte: false, entrees_relogees, entrees_totales }
    }

    /// Remet l'arène à plat : chaque triangle reçoit sa place dans l'ordre, sans aucun trou.
    fn compacter(&mut self, k_voulu: &[u32])
        requires
            old(self).libres@.len() == CLASSES,
            k_voulu@.len() == old(self).occupation().len(),
            k_voulu@.len() <= u32::MAX,
            classes_valides(k_voulu@),
            total_des_tailles(k_voulu@) <= u32::MAX,
            old(self).compactages < u32::MAX,
        ensures
            final(self).wf(),
            final(self).occupation() == occupation_compacte(k_voulu@),
            final(self).piles_libres() == Seq::new(CLASSES as nat, |c: int| Seq::<u32>::empty()),
            final(self).sommet_de_l_arene() == total_des_tailles(k_voulu@),
            final(self).compactages == old(self).compactages + 1,
    {
        let mut c: usize = 0;
        while c < CLASSES
            invariant
                c <= CLASSES,
                self.libres@.len() == CLASSES,
                self.occupe@ == old(self).occupe@,
                self.compactages == old(self).compactages,
                forall|j: int| 0 <= j < c ==> (#[trigger] self.libres@[j])@ == Seq::<u32>::empty(),
            decreases CLASSES - c,
        {
            self.libres.set(c, Vec::new());
            c = c + 1;
        }
        self.sommet = 0;
        let n = k_voulu.len();
        let mut t: usize = 0;
        proof {
            lemme_total_borne(k_voulu@);
        }
        while t < n
            invariant
                t <= n,
                n == k_voulu@.len(),
                self.occupe@.len() == n,
                classes_valides(k_voulu@),
                total_des_tailles(k_voulu@) <= u32::MAX,
                self.sommet as int == base_compacte(k_voulu@, t as int),
                forall|j: int| 0 <= j < t ==> #[trigger] self.occupe@[j]
                    == Some((base_compacte(k_voulu@, j) as u32, k_voulu@[j])),
                self.libres@.len() == CLASSES,
                self.compactages == old(self).compactages,
                forall|j: int| 0 <= j < CLASSES ==> (#[trigger] self.libres@[j])@ == Seq::<u32>::empty(),
            decreases n - t,
        {
            proof {
                lemme_base_suivante(k_voulu@, t as int);
                lemme_bases_croissantes(k_voulu@, t as int, n as int);
                lemme_base_totale(k_voulu@);
            }
            let taille = micro_sommets(k_voulu[t]);
            self.occupe.set(t, Some((self.sommet, k_voulu[t])));
            self.sommet = self.sommet + taille;
            t = t + 1;
        }
        self.compactages = self.compactages + 1;
        proof {
            lemme_base_totale(k_voulu@);
            assert(self.occupation() =~= occupation_compacte(k_voulu@));
            assert(self.piles_libres() =~= Seq::new(CLASSES as nat, |c: int| Seq::<u32>::empty()));
            lemme_compacte_bien_forme(k_voulu@);
            lemme_compacte_sans_perte(k_voulu@);
        }
    }

    /// Le plan à envoyer au GPU : les mêmes deux `u32` par triangle, avec des bases stables.
    ///
    /// Le biais et le compte des écrêtés sont repris tels quels du plan d'origine.
    pub fn appliquer(&self, modele: &Plan) -> (plan: Plan)
        requires
            self.wf(),
            forall|t: int| 0 <= t < self.occupation().len() && (#[trigger] self.occupation()[t]).is_some()
                ==> t < modele.par_triangle@.len(),
        ensures
            plan.par_triangle@.len() == modele.par_triangle@.len(),
            forall|t: int| 0 <= t < modele.par_triangle@.len() ==> #[trigger] plan.par_triangle@[t]
                == (if t < self.occupation().len() && self.occupation()[t].is_some() {
                    (self.occupation()[t].unwrap().0, pow2(self.occupation()[t].unwrap().1 as nat) as u32)
                } else {
                    modele.par_triangle@[t]
                }),
            plan.entrees == self.sommet_de_l_arene(),
            plan.biais == modele.biais,
            plan.ecretes == modele.ecretes,
    {
        let mut par_triangle: Vec<(u32, u32)> = Vec::new();
        let mut t: usize = 0;
        while t < modele.par_triangle.len()
            invariant
                self.wf(),
                forall|j: int| 0 <= j < self.occupation().len() && (#[trigger] self.occupation()[j]).is_some()
                    ==> j < modele.par_triangle@.len(),
                t <= modele.par_triangle@.len(),
                par_triangle@.len() == t,
                forall|j: int| 0 <= j < t ==> #[trigger] par_triangle@[j]
                    == (if j < self.occupation().len() && self.occupation()[j].is_some() {
                        (self.occupation()[j].unwrap().0, pow2(self.occupation()[j].unwrap().1 as nat) as u32)
                    } else {
                        modele.par_triangle@[j]
                    }),
            decreases modele.par_triangle@.len() - t,
        {
            let entree = if t < self.occupe.len() {
                match self.occupe[t] {
                    Some((base, k)) => {
                        proof {
                            assert(self.occupation()[t as int].is_some());
                            vstd::arithmetic::power2::lemma2_to64();
                            vstd::bits::lemma_u32_shl_is_mul(1, k);
                        }
                        (base, 1u32 << k)
                    }
                    None => modele.par_triangle[t],
                }
            } else {
                modele.par_triangle[t]
            };
            par_triangle.push(entree);
            t = t + 1;
        }
        Plan { par_triangle, entrees: self.sommet, biais: modele.biais, ecretes: modele.ecretes }
    }

    /// Les octets réservés — le sommet de l'arène, trous compris.
    pub fn empreinte(&self) -> (r: u64)
        ensures
            r == self.sommet_de_l_arene() * OCTETS_PAR_ENTREE,
    {
        self.sommet as u64 * OCTETS_PAR_ENTREE
    }

    /// La mise à jour vers `k_voulu` reste-t-elle dans ce qu'un `u32` compte ? Un triangle par
    /// subdivision voulue, chacune une classe, l'arène assez loin de `u32::MAX` pour grandir de
    /// tout ce qui est demandé, et le compte des compactages pas encore plein. Quand la réponse est
    /// oui, [`Placement::mettre_a_jour`] peut être appelée avec n'importe quel budget.
    pub fn mise_a_jour_possible(&self, k_voulu: &[u32]) -> (r: bool)
        requires
            self.wf(),
        ensures
            r == (k_voulu@.len() == self.occupation().len() && classes_valides(k_voulu@)
                && self.sommet_de_l_arene() + total_des_tailles(k_voulu@) <= u32::MAX
                && self.compte_des_compactages() < u32::MAX),
            r ==> forall|budget: int| ({
                &&& apres_les_passes(self.occupation(), self.piles_libres(),
                    self.sommet_de_l_arene(), k_voulu@).2 <= u32::MAX
                &&& #[trigger] doit_compacter(self.occupation(), self.piles_libres(),
                    self.sommet_de_l_arene(), k_voulu@, budget) ==> self.compte_des_compactages() < u32::MAX
            }),
    {
        if k_voulu.len() != self.occupe.len() || self.compactages == u32::MAX {
            return false;
        }
        let mut t: usize = 0;
        while t < k_voulu.len()
            invariant
                t <= k_voulu@.len(),
                forall|j: int| 0 <= j < t ==> #[trigger] k_voulu@[j] <= K_MAX,
            decreases k_voulu@.len() - t,
        {
            if k_voulu[t] > K_MAX {
                return false;
            }
            t = t + 1;
        }
        proof {
            lemme_bien_forme_et_sans_perte(self);
            lemme_borne_du_sommet(self.occupation(), self.piles_libres(), self.sommet_de_l_arene(), k_voulu@);
        }
        let total = total_exec(k_voulu);
        self.sommet as u64 + total <= u32::MAX as u64
    }

    /// Combien de fois l'arène a été remise à plat.
    pub fn compactages(&self) -> (r: u32)
        ensures
            r == self.compte_des_compactages(),
    {
        self.compactages
    }
}


/// La vue des piles suit la mise à jour d'une pile.
proof fn lemme_vue_des_piles(v: Seq<Vec<u32>>, c: int, nv: Vec<u32>)
    requires
        0 <= c < v.len(),
    ensures
        v.update(c, nv).map_values(|w: Vec<u32>| w@) =~= v.map_values(|w: Vec<u32>| w@).update(c, nv@),
{
}

/// Un bloc ne dépasse jamais 33 153 entrées.
proof fn lemme_taille_bornee(k: u32)
    requires
        k <= K_MAX,
    ensures
        3 <= taille(k) <= 33153,
{
    vstd::arithmetic::power2::lemma2_to64();
    lemme_micro_sommets_croissant(k as nat, K_MAX as nat);
    lemme_micro_sommets_croissant(0, k as nat);
}

/// Le total des entrées occupées est borné par le nombre de triangles.
proof fn lemme_entrees_bornees(occ: Occupation)
    requires
        forall|t: int| 0 <= t < occ.len() && (#[trigger] occ[t]).is_some() ==> occ[t].unwrap().1 <= K_MAX,
    ensures
        0 <= entrees_occupees(occ) <= occ.len() * 33153,
    decreases occ.len(),
{
    if occ.len() > 0 {
        let o = occ.drop_last();
        assert forall|t: int| 0 <= t < o.len() && (#[trigger] o[t]).is_some() implies o[t].unwrap().1 <= K_MAX by {
            assert(o[t] == occ[t]);
        }
        lemme_entrees_bornees(o);
        if let Some((_, k)) = occ.last() {
            assert(occ[occ.len() - 1].is_some());
            lemme_taille_bornee(k);
        }
    }
}

/// Le total des tailles de triangles valides est borné par leur nombre.
proof fn lemme_total_borne(k: Seq<u32>)
    requires
        classes_valides(k),
    ensures
        0 <= total_des_tailles(k) <= k.len() * 33153,
    decreases k.len(),
{
    if k.len() > 0 {
        lemme_total_borne(k.drop_last());
        lemme_taille_bornee(k.last());
    }
}


/// Rendre un bloc à sa pile garde le placement cohérent : le bloc change de liste, pas de place.
proof fn lemme_rendre_un_bloc(o: Occupation, l: Libres, s: int, i: int)
    requires
        bien_forme(o, l, s),
        0 <= i < o.len(),
        o[i].is_some(),
    ensures
        bien_forme(
            o.update(i, None),
            l.update(o[i].unwrap().1 as int, l[o[i].unwrap().1 as int].push(o[i].unwrap().0)),
            s,
        ),
{
    let (b, a) = o[i].unwrap();
    let o2 = o.update(i, None);
    let l2 = l.update(a as int, l[a as int].push(b));
    let n = l[a as int].len() as int;
    assert forall|t: int| 0 <= t < o2.len() && (#[trigger] o2[t]).is_some() implies {
        &&& o2[t].unwrap().1 <= K_MAX
        &&& o2[t].unwrap().0 + taille(o2[t].unwrap().1) <= s
    } by {
        assert(o[t].is_some());
    }
    assert forall|c: int, j: int| 0 <= c < CLASSES && 0 <= j < l2[c].len()
        implies #[trigger] l2[c][j] + taille(c as u32) <= s by {
        if c == a && j == n {
        } else {
            assert(l2[c][j] == l[c][j]);
        }
    }
    assert forall|t1: int, t2: int|
        0 <= t1 < o2.len() && 0 <= t2 < o2.len() && t1 != t2
        && (#[trigger] o2[t1]).is_some() && (#[trigger] o2[t2]).is_some()
        implies disjoints(o2[t1].unwrap().0 as int, taille(o2[t1].unwrap().1),
                      o2[t2].unwrap().0 as int, taille(o2[t2].unwrap().1)) by {
        assert(o[t1].is_some() && o[t2].is_some());
    }
    assert forall|t: int, c: int, j: int|
        0 <= t < o2.len() && (#[trigger] o2[t]).is_some() && 0 <= c < CLASSES
        && 0 <= j < l2[c].len()
        implies disjoints(o2[t].unwrap().0 as int, taille(o2[t].unwrap().1),
                      #[trigger] l2[c][j] as int, taille(c as u32)) by {
        assert(o[t].is_some());
        if c == a && j == n {
            assert(t != i);
        } else {
            assert(l2[c][j] == l[c][j]);
        }
    }
    assert forall|c1: int, j1: int, c2: int, j2: int|
        0 <= c1 < CLASSES && 0 <= j1 < l2[c1].len()
        && 0 <= c2 < CLASSES && 0 <= j2 < l2[c2].len() && (c1 != c2 || j1 != j2)
        implies disjoints(#[trigger] l2[c1][j1] as int, taille(c1 as u32),
                      #[trigger] l2[c2][j2] as int, taille(c2 as u32)) by {
        let nouveau1 = c1 == a && j1 == n;
        let nouveau2 = c2 == a && j2 == n;
        if nouveau1 {
            assert(l2[c2][j2] == l[c2][j2]);
        } else if nouveau2 {
            assert(l2[c1][j1] == l[c1][j1]);
        } else {
            assert(l2[c1][j1] == l[c1][j1]);
            assert(l2[c2][j2] == l[c2][j2]);
        }
    }
}

/// Ce que la première passe fait des triangles `0 .. t`, et qu'elle garde le placement cohérent.
pub proof fn lemme_liberer(occ: Occupation, libres: Libres, s: int, k: Seq<u32>, t: nat)
    requires
        bien_forme(occ, libres, s),
        t <= occ.len(),
        occ.len() == k.len(),
    ensures
        bien_forme(liberer(occ, libres, k, t).0, liberer(occ, libres, k, t).1, s),
        liberer(occ, libres, k, t).0.len() == occ.len(),
        forall|j: int| t <= j < occ.len() ==> #[trigger] liberer(occ, libres, k, t).0[j] == occ[j],
        forall|j: int| 0 <= j < t ==> #[trigger] liberer(occ, libres, k, t).0[j]
            == (if occ[j].is_some() && occ[j].unwrap().1 != k[j] { None } else { occ[j] }),
    decreases t,
{
    if t > 0 {
        lemme_liberer(occ, libres, s, k, (t - 1) as nat);
        let (o, l) = liberer(occ, libres, k, (t - 1) as nat);
        let i = t - 1;
        if o[i].is_some() && o[i].unwrap().1 != k[i] {
            lemme_rendre_un_bloc(o, l, s, i);
        }
    }
}

/// Prendre le dernier bloc rendu d'une pile pour le donner au triangle `i`.
proof fn lemme_reprendre_un_bloc(o: Occupation, l: Libres, s: int, i: int, c: u32)
    requires
        bien_forme(o, l, s),
        0 <= i < o.len(),
        o[i].is_none(),
        c <= K_MAX,
        l[c as int].len() > 0,
    ensures
        bien_forme(
            o.update(i, Some((l[c as int].last(), c))),
            l.update(c as int, l[c as int].drop_last()),
            s,
        ),
{
    let n = l[c as int].len() - 1;
    let b = l[c as int].last();
    let o2 = o.update(i, Some((b, c)));
    let l2 = l.update(c as int, l[c as int].drop_last());
    assert(l[c as int][n] == b);
    assert forall|t: int| 0 <= t < o2.len() && (#[trigger] o2[t]).is_some() implies {
        &&& o2[t].unwrap().1 <= K_MAX
        &&& o2[t].unwrap().0 + taille(o2[t].unwrap().1) <= s
    } by {
        if t != i {
            assert(o[t].is_some());
        }
    }
    assert forall|cc: int, j: int| 0 <= cc < CLASSES && 0 <= j < l2[cc].len()
        implies #[trigger] l2[cc][j] + taille(cc as u32) <= s by {
        assert(l2[cc][j] == l[cc][j]);
    }
    assert forall|t1: int, t2: int|
        0 <= t1 < o2.len() && 0 <= t2 < o2.len() && t1 != t2
        && (#[trigger] o2[t1]).is_some() && (#[trigger] o2[t2]).is_some()
        implies disjoints(o2[t1].unwrap().0 as int, taille(o2[t1].unwrap().1),
                      o2[t2].unwrap().0 as int, taille(o2[t2].unwrap().1)) by {
        if t1 == i {
            assert(o[t2].is_some());
            assert(disjoints(o[t2].unwrap().0 as int, taille(o[t2].unwrap().1),
                l[c as int][n] as int, taille(c)));
        } else if t2 == i {
            assert(o[t1].is_some());
            assert(disjoints(o[t1].unwrap().0 as int, taille(o[t1].unwrap().1),
                l[c as int][n] as int, taille(c)));
        } else {
            assert(o[t1].is_some() && o[t2].is_some());
        }
    }
    assert forall|t: int, cc: int, j: int|
        0 <= t < o2.len() && (#[trigger] o2[t]).is_some() && 0 <= cc < CLASSES
        && 0 <= j < l2[cc].len()
        implies disjoints(o2[t].unwrap().0 as int, taille(o2[t].unwrap().1),
                      #[trigger] l2[cc][j] as int, taille(cc as u32)) by {
        assert(l2[cc][j] == l[cc][j]);
        if t == i {
            assert(cc != c || j != n);
            assert(disjoints(l[c as int][n] as int, taille(c), l[cc][j] as int, taille(cc as u32)));
        } else {
            assert(o[t].is_some());
        }
    }
    assert forall|c1: int, j1: int, c2: int, j2: int|
        0 <= c1 < CLASSES && 0 <= j1 < l2[c1].len()
        && 0 <= c2 < CLASSES && 0 <= j2 < l2[c2].len() && (c1 != c2 || j1 != j2)
        implies disjoints(#[trigger] l2[c1][j1] as int, taille(c1 as u32),
                      #[trigger] l2[c2][j2] as int, taille(c2 as u32)) by {
        assert(l2[c1][j1] == l[c1][j1]);
        assert(l2[c2][j2] == l[c2][j2]);
    }
}

/// Donner au triangle `i` un bloc neuf, pris au sommet de l'arène.
proof fn lemme_bloc_neuf(o: Occupation, l: Libres, s: int, i: int, c: u32)
    requires
        bien_forme(o, l, s),
        0 <= i < o.len(),
        o[i].is_none(),
        c <= K_MAX,
        s + taille(c) <= u32::MAX,
    ensures
        bien_forme(o.update(i, Some((s as u32, c))), l, s + taille(c)),
{
    let o2 = o.update(i, Some((s as u32, c)));
    let s2 = s + taille(c);
    lemme_taille_bornee(c);
    assert forall|t: int| 0 <= t < o2.len() && (#[trigger] o2[t]).is_some() implies {
        &&& o2[t].unwrap().1 <= K_MAX
        &&& o2[t].unwrap().0 + taille(o2[t].unwrap().1) <= s2
    } by {
        if t != i {
            assert(o[t].is_some());
        }
    }
    assert forall|cc: int, j: int| 0 <= cc < CLASSES && 0 <= j < l[cc].len()
        implies #[trigger] l[cc][j] + taille(cc as u32) <= s2 by {
    }
    assert forall|t1: int, t2: int|
        0 <= t1 < o2.len() && 0 <= t2 < o2.len() && t1 != t2
        && (#[trigger] o2[t1]).is_some() && (#[trigger] o2[t2]).is_some()
        implies disjoints(o2[t1].unwrap().0 as int, taille(o2[t1].unwrap().1),
                      o2[t2].unwrap().0 as int, taille(o2[t2].unwrap().1)) by {
        if t1 == i {
            assert(o[t2].is_some());
        } else if t2 == i {
            assert(o[t1].is_some());
        } else {
            assert(o[t1].is_some() && o[t2].is_some());
        }
    }
    assert forall|t: int, cc: int, j: int|
        0 <= t < o2.len() && (#[trigger] o2[t]).is_some() && 0 <= cc < CLASSES
        && 0 <= j < l[cc].len()
        implies disjoints(o2[t].unwrap().0 as int, taille(o2[t].unwrap().1),
                      #[trigger] l[cc][j] as int, taille(cc as u32)) by {
        if t != i {
            assert(o[t].is_some());
        }
    }
}

/// Ce que la seconde passe fait des triangles `0 .. t` : chacun finit dans un bloc de sa classe,
/// ceux qui en avaient un le gardent, et le placement reste cohérent.
pub proof fn lemme_servir(occ: Occupation, libres: Libres, s: int, k: Seq<u32>, t: nat)
    requires
        bien_forme(occ, libres, s),
        t <= occ.len(),
        occ.len() == k.len(),
        classes_valides(k),
        servir(occ, libres, s, k, occ.len() as nat).2 <= u32::MAX,
    ensures
        ({
            let (o, l, s2, r, e) = servir(occ, libres, s, k, t);
            &&& bien_forme(o, l, s2)
            &&& o.len() == occ.len()
            &&& s <= s2 <= servir(occ, libres, s, k, occ.len() as nat).2
            &&& forall|j: int| t <= j < occ.len() ==> #[trigger] o[j] == occ[j]
            &&& forall|j: int| 0 <= j < t && occ[j].is_some() ==> #[trigger] o[j] == occ[j]
            &&& forall|j: int| 0 <= j < t ==> (#[trigger] o[j]).is_some() && (occ[j].is_none()
                ==> o[j].unwrap().1 == k[j])
            &&& 0 <= e <= total_des_tailles(k.subrange(0, t as int))
            &&& r.len() <= t
            &&& forall|m: int| 0 <= m < r.len() ==> #[trigger] r[m] < t
        }),
    decreases t,
{
    lemme_servir_croissant(occ, libres, s, k, t, occ.len() as nat);
    if t > 0 {
        lemme_servir(occ, libres, s, k, (t - 1) as nat);
        let (o, l, s1, r, e) = servir(occ, libres, s, k, (t - 1) as nat);
        let i = t - 1;
        let c = k[i as int];
        let pre = k.subrange(0, t as int);
        assert(pre.drop_last() =~= k.subrange(0, i as int));
        lemme_taille_bornee(c);
        if o[i as int].is_none() {
            if l[c as int].len() > 0 {
                lemme_reprendre_un_bloc(o, l, s1, i as int, c);
            } else {
                lemme_bloc_neuf(o, l, s1, i as int, c);
            }
        }
    }
}

/// Le sommet ne fait que monter pendant la seconde passe.
proof fn lemme_servir_croissant(occ: Occupation, libres: Libres, s: int, k: Seq<u32>, t1: nat, t2: nat)
    requires
        t1 <= t2 <= occ.len(),
        occ.len() == k.len(),
        classes_valides(k),
    ensures
        s <= servir(occ, libres, s, k, t1).2 <= servir(occ, libres, s, k, t2).2,
    decreases t2,
{
    if t2 > t1 {
        lemme_servir_croissant(occ, libres, s, k, t1, (t2 - 1) as nat);
        lemme_taille_bornee(k[t2 - 1]);
    } else if t1 > 0 {
        lemme_servir_croissant(occ, libres, s, k, 0, (t1 - 1) as nat);
        lemme_taille_bornee(k[t1 - 1]);
    }
}


/// La base compactée du triangle suivant vient juste après celle du triangle courant.
proof fn lemme_base_suivante(k: Seq<u32>, t: int)
    requires
        0 <= t < k.len(),
    ensures
        base_compacte(k, t + 1) == base_compacte(k, t) + taille(k[t]),
{
    assert(k.subrange(0, t + 1).drop_last() =~= k.subrange(0, t));
}

/// Les bases compactées croissent d'au moins la taille des blocs qui les séparent.
proof fn lemme_bases_croissantes(k: Seq<u32>, t1: int, t2: int)
    requires
        0 <= t1 < t2 <= k.len(),
        classes_valides(k),
    ensures
        base_compacte(k, t1) + taille(k[t1]) <= base_compacte(k, t2),
    decreases t2 - t1,
{
    lemme_base_suivante(k, t1);
    if t1 + 1 < t2 {
        lemme_bases_croissantes(k, t1 + 1, t2);
        lemme_taille_bornee(k[t1 + 1]);
    }
}

/// Le dernier triangle compacté finit au total des tailles.
proof fn lemme_base_totale(k: Seq<u32>)
    ensures
        base_compacte(k, k.len() as int) == total_des_tailles(k),
{
    assert(k.subrange(0, k.len() as int) =~= k);
}

/// L'arène remise à plat : chaque triangle à sa base compactée, aucune pile, le sommet au total.
pub open spec fn occupation_compacte(k: Seq<u32>) -> Occupation {
    Seq::new(k.len(), |t: int| Some((base_compacte(k, t) as u32, k[t])))
}

/// Une arène remise à plat est cohérente.
proof fn lemme_compacte_bien_forme(k: Seq<u32>)
    requires
        classes_valides(k),
        k.len() <= u32::MAX,
        total_des_tailles(k) <= u32::MAX,
    ensures
        bien_forme(occupation_compacte(k), Seq::new(CLASSES as nat, |c: int| Seq::<u32>::empty()),
            total_des_tailles(k)),
{
    let o = occupation_compacte(k);
    lemme_total_borne(k);
    lemme_base_totale(k);
    assert forall|t: int| 0 <= t < k.len() implies 0 <= base_compacte(k, t)
        && base_compacte(k, t) + taille(k[t]) <= total_des_tailles(k) by {
        lemme_bases_croissantes(k, t, k.len() as int);
        lemme_prefixe_positif(k, t);
    }
    assert forall|t: int| 0 <= t < o.len() && (#[trigger] o[t]).is_some() implies {
        &&& o[t].unwrap().1 <= K_MAX
        &&& o[t].unwrap().0 + taille(o[t].unwrap().1) <= total_des_tailles(k)
    } by {
        assert(0 <= base_compacte(k, t) + taille(k[t]) <= total_des_tailles(k));
    }
    assert forall|t1: int, t2: int|
        0 <= t1 < o.len() && 0 <= t2 < o.len() && t1 != t2
        && (#[trigger] o[t1]).is_some() && (#[trigger] o[t2]).is_some()
        implies disjoints(o[t1].unwrap().0 as int, taille(o[t1].unwrap().1),
                      o[t2].unwrap().0 as int, taille(o[t2].unwrap().1)) by {
        assert(0 <= base_compacte(k, t1) + taille(k[t1]) <= total_des_tailles(k));
        assert(0 <= base_compacte(k, t2) + taille(k[t2]) <= total_des_tailles(k));
        if t1 < t2 {
            lemme_bases_croissantes(k, t1, t2);
        } else {
            lemme_bases_croissantes(k, t2, t1);
        }
    }
}

/// Un préfixe de tailles est positif.
proof fn lemme_prefixe_positif(k: Seq<u32>, t: int)
    requires
        0 <= t <= k.len(),
        classes_valides(k),
    ensures
        0 <= base_compacte(k, t),
    decreases t,
{
    if t > 0 {
        lemme_prefixe_positif(k, t - 1);
        lemme_base_suivante(k, t - 1);
        lemme_taille_bornee(k[t - 1]);
    }
}

/// Quand chaque triangle occupe un bloc de sa classe, les entrées occupées sont le total des
/// tailles voulues.
pub proof fn lemme_occupees_egal_total(o: Occupation, k: Seq<u32>)
    requires
        o.len() == k.len(),
        forall|j: int| 0 <= j < o.len() ==> (#[trigger] o[j]).is_some() && o[j].unwrap().1 == k[j],
    ensures
        entrees_occupees(o) == total_des_tailles(k),
    decreases o.len(),
{
    if o.len() > 0 {
        let o2 = o.drop_last();
        let k2 = k.drop_last();
        assert forall|j: int| 0 <= j < o2.len() implies (#[trigger] o2[j]).is_some()
            && o2[j].unwrap().1 == k2[j] by {
            assert(o2[j] == o[j]);
        }
        lemme_occupees_egal_total(o2, k2);
        assert(o[o.len() - 1].is_some());
    }
}


/// Un préfixe de tailles ne dépasse pas le total.
proof fn lemme_total_prefixe(k: Seq<u32>, t: int)
    requires
        0 <= t <= k.len(),
        classes_valides(k),
    ensures
        0 <= total_des_tailles(k.subrange(0, t)) <= total_des_tailles(k),
    decreases k.len() - t,
{
    lemme_prefixe_positif(k, t);
    if t < k.len() {
        lemme_total_prefixe(k, t + 1);
        lemme_base_suivante(k, t);
        lemme_taille_bornee(k[t]);
    } else {
        assert(k.subrange(0, t) =~= k);
    }
}

/// Le total des entrées que des triangles de classes `k` occupent.
fn total_exec(k: &[u32]) -> (r: u64)
    requires
        classes_valides(k@),
        k@.len() <= u32::MAX,
    ensures
        r == total_des_tailles(k@),
{
    let mut somme: u64 = 0;
    let mut t: usize = 0;
    proof {
        lemme_total_borne(k@);
    }
    while t < k.len()
        invariant
            classes_valides(k@),
            k@.len() <= u32::MAX,
            t <= k@.len(),
            total_des_tailles(k@) <= k@.len() * 33153,
            somme == total_des_tailles(k@.subrange(0, t as int)),
        decreases k@.len() - t,
    {
        proof {
            assert(k@.subrange(0, t as int + 1).drop_last() =~= k@.subrange(0, t as int));
            lemme_total_prefixe(k@, t as int + 1);
        }
        somme = somme + micro_sommets(k[t]) as u64;
        t = t + 1;
    }
    proof {
        assert(k@.subrange(0, t as int) =~= k@);
    }
    somme
}


/// Le raccord d'un triangle a changé entre deux images : il n'existait pas avant, ou ses niveaux
/// d'arêtes diffèrent.
pub open spec fn bord_change(avant: Seq<[u32; 3]>, apres: Seq<[u32; 3]>, t: int) -> bool {
    t >= avant.len() || avant[t]@ != apres[t]@
}

/// Les triangles `0 .. t`, dans l'ordre, que le raccord ajoute à la liste des relogés.
pub open spec fn a_ajouter(reloges: Seq<u32>, avant: Seq<[u32; 3]>, apres: Seq<[u32; 3]>, t: nat)
    -> Seq<u32>
    decreases t,
{
    if t == 0 {
        Seq::empty()
    } else {
        let prec = a_ajouter(reloges, avant, apres, (t - 1) as nat);
        let i = t - 1;
        if !reloges.contains(i as u32) && bord_change(avant, apres, i) {
            prec.push(i as u32)
        } else {
            prec
        }
    }
}

/// Une suite croissante.
pub open spec fn croissante(s: Seq<u32>) -> bool {
    forall|i: int, j: int| 0 <= i < j < s.len() ==> s[i] <= s[j]
}

/// ⭐ Ce qu'il faut recalculer pour passer d'une image à la suivante : les triangles relogés, plus
/// ceux dont le raccord a changé sans qu'ils bougent — chacun une seule fois, dans l'ordre.
///
/// Ce qui n'est pas dans cette liste garde la valeur écrite à l'image précédente.
pub fn a_refaire(deplacement: &Deplacement, aretes_avant: &[[u32; 3]], aretes_apres: &[[u32; 3]])
    -> (liste: Vec<u32>)
    requires
        aretes_apres@.len() <= u32::MAX,
    ensures
        croissante(liste@),
        liste@.to_multiset() == deplacement.reloges@.to_multiset().add(
            a_ajouter(deplacement.reloges@, aretes_avant@, aretes_apres@, aretes_apres@.len() as nat)
                .to_multiset()),
        forall|x: u32| #[trigger] deplacement.reloges@.contains(x) ==> liste@.contains(x),
        forall|t: int| 0 <= t < aretes_apres@.len() && !deplacement.reloges@.contains(t as u32)
            ==> (#[trigger] liste@.contains(t as u32) <==> (t >= aretes_avant@.len()
                || aretes_avant@[t][0] != aretes_apres@[t][0]
                || aretes_avant@[t][1] != aretes_apres@[t][1]
                || aretes_avant@[t][2] != aretes_apres@[t][2])),
{
    let n = aretes_apres.len();
    let reloges = &deplacement.reloges;
    // Qui est déjà relogé, parmi les triangles de l'image.
    let mut deja: Vec<bool> = Vec::new();
    let mut t: usize = 0;
    while t < n
        invariant
            t <= n,
            deja@.len() == t,
            forall|j: int| 0 <= j < t ==> !(#[trigger] deja@[j]),
        decreases n - t,
    {
        deja.push(false);
        t = t + 1;
    }
    let mut i: usize = 0;
    while i < reloges.len()
        invariant
            n == aretes_apres@.len(),
            n <= u32::MAX,
            i <= reloges@.len(),
            deja@.len() == n,
            forall|j: int| 0 <= j < n ==> (#[trigger] deja@[j] <==> reloges@.subrange(0, i as int).contains(j as u32)),
        decreases reloges@.len() - i,
    {
        let r = reloges[i];
        proof {
            assert forall|j: int| 0 <= j < n implies (#[trigger] reloges@.subrange(0, i as int + 1).contains(j as u32)
                <==> (reloges@.subrange(0, i as int).contains(j as u32) || r == j as u32)) by {
                let a = reloges@.subrange(0, i as int);
                let b = reloges@.subrange(0, i as int + 1);
                assert(b =~= a.push(r));
                if b.contains(j as u32) {
                    let m = choose|m: int| 0 <= m < b.len() && b[m] == j as u32;
                    if m < a.len() {
                        assert(a[m] == j as u32);
                    }
                }
                if a.contains(j as u32) {
                    let m = choose|m: int| 0 <= m < a.len() && a[m] == j as u32;
                    assert(b[m] == j as u32);
                }
                if r == j as u32 {
                    assert(b[i as int] == j as u32);
                }
            }
        }
        if (r as usize) < n {
            deja.set(r as usize, true);
        }
        i = i + 1;
    }
    proof {
        assert(reloges@.subrange(0, reloges@.len() as int) =~= reloges@);
    }
    let mut liste: Vec<u32> = Vec::new();
    let mut i: usize = 0;
    proof {
        broadcast use vstd::seq_lib::group_to_multiset_ensures, vstd::multiset::group_multiset_axioms;
        assert(reloges@.subrange(0, 0) =~= liste@);
    }
    while i < reloges.len()
        invariant
            i <= reloges@.len(),
            croissante(liste@),
            liste@.to_multiset() == reloges@.subrange(0, i as int).to_multiset(),
        decreases reloges@.len() - i,
    {
        proof {
            assert(reloges@.subrange(0, i as int + 1) =~= reloges@.subrange(0, i as int).push(reloges@[i as int]));
            vstd::seq_lib::to_multiset_build(reloges@.subrange(0, i as int), reloges@[i as int]);
        }
        inserer_en_ordre(&mut liste, reloges[i]);
        i = i + 1;
    }
    proof {
        broadcast use vstd::multiset::group_multiset_axioms;
        assert(reloges@.subrange(0, reloges@.len() as int) =~= reloges@);
        assert(a_ajouter(reloges@, aretes_avant@, aretes_apres@, 0).to_multiset()
            =~= Multiset::empty()) by {
            broadcast use vstd::seq_lib::group_to_multiset_ensures;
        }
        assert(reloges@.to_multiset().add(Multiset::empty()) =~= reloges@.to_multiset());
    }
    let mut t: usize = 0;
    while t < n
        invariant
            n == aretes_apres@.len(),
            n <= u32::MAX,
            t <= n,
            deja@.len() == n,
            forall|j: int| 0 <= j < n ==> (#[trigger] deja@[j] <==> reloges@.contains(j as u32)),
            croissante(liste@),
            liste@.to_multiset() == reloges@.to_multiset().add(
                a_ajouter(reloges@, aretes_avant@, aretes_apres@, t as nat).to_multiset()),
        decreases n - t,
    {
        let change = if t < aretes_avant.len() {
            let a = aretes_avant[t];
            let b = aretes_apres[t];
            let differents = a[0] != b[0] || a[1] != b[1] || a[2] != b[2];
            proof {
                if !differents {
                    assert(a@ =~= b@);
                } else {
                    assert(a@ != b@) by {
                        if a@ == b@ {
                            assert(a@[0] == b@[0] && a@[1] == b@[1] && a@[2] == b@[2]);
                        }
                    }
                }
            }
            differents
        } else {
            true
        };
        let ghost avant_liste = liste@;
        if !deja[t] && change {
            proof {
                vstd::seq_lib::to_multiset_build(
                    a_ajouter(reloges@, aretes_avant@, aretes_apres@, t as nat), t as u32);
            }
            inserer_en_ordre(&mut liste, t as u32);
            proof {
                assert(liste@.to_multiset() =~= reloges@.to_multiset().add(
                    a_ajouter(reloges@, aretes_avant@, aretes_apres@, (t + 1) as nat).to_multiset()));
            }
        }
        t = t + 1;
    }
    proof {
        broadcast use vstd::seq_lib::group_to_multiset_ensures, vstd::multiset::group_multiset_axioms;
        let ajoutes = a_ajouter(reloges@, aretes_avant@, aretes_apres@, n as nat);
        assert forall|x: u32| #[trigger] reloges@.contains(x) implies liste@.contains(x) by {
            assert(liste@.to_multiset().count(x) == reloges@.to_multiset().count(x)
                + ajoutes.to_multiset().count(x));
        }
        assert forall|t: int| 0 <= t < aretes_apres@.len() && !reloges@.contains(t as u32)
            implies (#[trigger] liste@.contains(t as u32) <==> (t >= aretes_avant@.len()
                || aretes_avant@[t][0] != aretes_apres@[t][0]
                || aretes_avant@[t][1] != aretes_apres@[t][1]
                || aretes_avant@[t][2] != aretes_apres@[t][2])) by {
            lemme_ce_qui_est_a_refaire(reloges@, aretes_avant@, aretes_apres@, t);
            assert(liste@.to_multiset().count(t as u32) == reloges@.to_multiset().count(t as u32)
                + ajoutes.to_multiset().count(t as u32));
        }
    }
    liste
}

/// Ce que la passe du raccord ajoute aux triangles `0 .. m` : exactement ceux qui ne sont pas
/// relogés et dont le raccord a changé.
proof fn lemme_a_ajouter_contient(reloges: Seq<u32>, avant: Seq<[u32; 3]>, apres: Seq<[u32; 3]>, m: nat, x: u32)
    requires
        m <= apres.len() <= u32::MAX,
    ensures
        a_ajouter(reloges, avant, apres, m).contains(x)
            <==> (x < m && !reloges.contains(x) && bord_change(avant, apres, x as int)),
    decreases m,
{
    if m > 0 {
        lemme_a_ajouter_contient(reloges, avant, apres, (m - 1) as nat, x);
        let prec = a_ajouter(reloges, avant, apres, (m - 1) as nat);
        let i = (m - 1) as u32;
        if !reloges.contains(i) && bord_change(avant, apres, i as int) {
            let s = prec.push(i);
            if s.contains(x) {
                let k = choose|k: int| 0 <= k < s.len() && s[k] == x;
                if k < prec.len() {
                    assert(prec[k] == x);
                }
            }
            if prec.contains(x) {
                let k = choose|k: int| 0 <= k < prec.len() && prec[k] == x;
                assert(s[k] == x);
            }
            if x == i {
                assert(s[prec.len() as int] == x);
            }
        }
    }
}

/// ⭐ **Ce qui est à refaire après une mise à jour.** Un triangle de l'image qui n'a pas été
/// relogé est à refaire exactement quand il n'existait pas à l'image précédente, ou quand l'un
/// quelconque de ses trois niveaux d'arêtes a changé ; un triangle relogé n'y est jamais ajouté
/// une seconde fois.
pub proof fn lemme_ce_qui_est_a_refaire(reloges: Seq<u32>, avant: Seq<[u32; 3]>, apres: Seq<[u32; 3]>, t: int)
    requires
        apres.len() <= u32::MAX,
        0 <= t < apres.len(),
    ensures
        !reloges.contains(t as u32) ==> (a_ajouter(reloges, avant, apres, apres.len() as nat).contains(t as u32)
            <==> (t >= avant.len() || avant[t][0] != apres[t][0] || avant[t][1] != apres[t][1]
                || avant[t][2] != apres[t][2])),
        reloges.contains(t as u32) ==> !a_ajouter(reloges, avant, apres, apres.len() as nat).contains(t as u32),
{
    lemme_a_ajouter_contient(reloges, avant, apres, apres.len() as nat, t as u32);
    if t < avant.len() {
        let a = avant[t];
        let b = apres[t];
        if a[0] == b[0] && a[1] == b[1] && a[2] == b[2] {
            assert(a@ =~= b@);
        } else if a@ == b@ {
            assert(a@[0] == b@[0] && a@[1] == b@[1] && a@[2] == b@[2]);
        }
    }
}

/// Insère `x` à sa place dans une suite croissante, après les éléments qui lui sont égaux.
fn inserer_en_ordre(liste: &mut Vec<u32>, x: u32)
    requires
        croissante(old(liste)@),
    ensures
        croissante(final(liste)@),
        final(liste)@.to_multiset() == old(liste)@.to_multiset().insert(x),
{
    let mut p = liste.len();
    while p > 0 && liste[p - 1] > x
        invariant
            p <= liste@.len(),
            croissante(liste@),
            liste@ == old(liste)@,
            forall|j: int| p <= j < liste@.len() ==> liste@[j] > x,
        decreases p,
    {
        p = p - 1;
    }
    let ghost avant = liste@;
    liste.insert(p, x);
    proof {
        avant.insert_ensures(p as int, x);
        vstd::seq_lib::to_multiset_insert(avant, p as int, x);
        assert forall|i: int, j: int| 0 <= i < j < liste@.len() implies liste@[i] <= liste@[j] by {
            if j < p {
            } else if j == p {
                if i < p {
                    assert(avant[i] <= avant[p - 1]);
                }
            } else if i < p {
                assert(avant[i] <= avant[j - 1]);
            } else if i == p {
            } else {
                assert(avant[i - 1] <= avant[j - 1]);
            }
        }
    }
}


/// Les triangles `0 .. t`, dans l'ordre, qui n'occupaient pas déjà un bloc de la classe voulue.
pub open spec fn a_reloger(occ: Occupation, k: Seq<u32>, t: nat) -> Seq<u32>
    decreases t,
{
    if t == 0 {
        Seq::empty()
    } else {
        let prec = a_reloger(occ, k, (t - 1) as nat);
        let i = t - 1;
        if occ[i].is_some() && occ[i].unwrap().1 == k[i] { prec } else { prec.push(i as u32) }
    }
}

/// La liste des relogés de la seconde passe est celle des triangles qui n'avaient pas déjà un
/// bloc de leur classe.
proof fn lemme_reloges_de_servir(occ: Occupation, libres: Libres, s: int, k: Seq<u32>, t: nat)
    requires
        bien_forme(occ, libres, s),
        t <= occ.len(),
        occ.len() == k.len(),
        classes_valides(k),
    ensures
        servir(liberer(occ, libres, k, occ.len() as nat).0, liberer(occ, libres, k, occ.len() as nat).1,
            s, k, t).3 == a_reloger(occ, k, t),
        servir(liberer(occ, libres, k, occ.len() as nat).0, liberer(occ, libres, k, occ.len() as nat).1,
            s, k, t).0.len() == occ.len(),
        forall|j: int| t <= j < occ.len() ==> #[trigger] servir(liberer(occ, libres, k, occ.len() as nat).0,
            liberer(occ, libres, k, occ.len() as nat).1, s, k, t).0[j]
            == liberer(occ, libres, k, occ.len() as nat).0[j],
    decreases t,
{
    lemme_liberer(occ, libres, s, k, occ.len() as nat);
    let (o1, l1) = liberer(occ, libres, k, occ.len() as nat);
    if t > 0 {
        lemme_reloges_de_servir(occ, libres, s, k, (t - 1) as nat);
        let (o, l, s1, r, e) = servir(o1, l1, s, k, (t - 1) as nat);
        let i = t - 1;
        assert(o[i as int] == o1[i as int]);
        let suivant = servir(o1, l1, s, k, t).0;
        assert forall|j: int| t <= j < occ.len() implies #[trigger] suivant[j] == o1[j] by {
            assert(o[j] == o1[j]);
        }
    }
}

/// ⭐⭐ **Une adresse ne bouge pas tant que la subdivision ne bouge pas.** Un triangle qui
/// occupait déjà un bloc de la classe voulue le garde après les deux passes, quoi qu'il arrive à
/// ses voisins.
pub proof fn lemme_une_adresse_ne_bouge_pas(occ: Occupation, libres: Libres, s: int, k: Seq<u32>, t: int)
    requires
        bien_forme(occ, libres, s),
        occ.len() == k.len(),
        classes_valides(k),
        apres_les_passes(occ, libres, s, k).2 <= u32::MAX,
        0 <= t < occ.len(),
        occ[t].is_some(),
        occ[t].unwrap().1 == k[t],
    ensures
        apres_les_passes(occ, libres, s, k).0[t] == occ[t],
{
    lemme_liberer(occ, libres, s, k, occ.len() as nat);
    let (o1, l1) = liberer(occ, libres, k, occ.len() as nat);
    lemme_servir(o1, l1, s, k, occ.len() as nat);
}

/// ⭐ Après les deux passes, chaque triangle occupe un bloc de la classe qu'il veut, et la liste
/// des relogés est exactement, dans l'ordre, celle des triangles qui n'en avaient pas déjà un.
pub proof fn lemme_chacun_dans_sa_classe(occ: Occupation, libres: Libres, s: int, k: Seq<u32>)
    requires
        bien_forme(occ, libres, s),
        occ.len() == k.len(),
        classes_valides(k),
        apres_les_passes(occ, libres, s, k).2 <= u32::MAX,
    ensures
        forall|t: int| 0 <= t < occ.len() ==> (#[trigger] apres_les_passes(occ, libres, s, k).0[t]).is_some()
            && apres_les_passes(occ, libres, s, k).0[t].unwrap().1 == k[t],
        apres_les_passes(occ, libres, s, k).3 == a_reloger(occ, k, occ.len() as nat),
        entrees_occupees(apres_les_passes(occ, libres, s, k).0) == total_des_tailles(k),
        bien_forme(apres_les_passes(occ, libres, s, k).0, apres_les_passes(occ, libres, s, k).1,
            apres_les_passes(occ, libres, s, k).2),
{
    lemme_liberer(occ, libres, s, k, occ.len() as nat);
    let (o1, l1) = liberer(occ, libres, k, occ.len() as nat);
    lemme_servir(o1, l1, s, k, occ.len() as nat);
    lemme_reloges_de_servir(occ, libres, s, k, occ.len() as nat);
    let o2 = apres_les_passes(occ, libres, s, k).0;
    assert forall|t: int| 0 <= t < occ.len() implies (#[trigger] o2[t]).is_some() && o2[t].unwrap().1 == k[t] by {
        if o1[t].is_some() {
            assert(o1[t] == occ[t]);
        }
    }
    lemme_occupees_egal_total(o2, k);
}

/// ⭐⭐ **L'empreinte est bornée par construction.** Après une mise à jour, l'arène tient dans le
/// budget, ou bien elle ne dépasse pas ce que les triangles occupent vraiment — et après un
/// compactage, elle est exactement ce qu'ils occupent.
pub proof fn lemme_l_empreinte_reste_bornee(occ: Occupation, libres: Libres, s: int, k: Seq<u32>, budget: int)
    requires
        bien_forme(occ, libres, s),
        occ.len() == k.len(),
        classes_valides(k),
        apres_les_passes(occ, libres, s, k).2 <= u32::MAX,
    ensures
        !doit_compacter(occ, libres, s, k, budget) ==> {
            let etat = apres_les_passes(occ, libres, s, k);
            ||| etat.2 * OCTETS_PAR_ENTREE <= budget
            ||| etat.2 * OCTETS_PAR_ENTREE <= entrees_occupees(etat.0) * OCTETS_PAR_ENTREE
        },
        doit_compacter(occ, libres, s, k, budget) ==>
            entrees_occupees(occupation_compacte(k)) == total_des_tailles(k),
{
    let o = occupation_compacte(k);
    assert forall|j: int| 0 <= j < o.len() implies (#[trigger] o[j]).is_some() && o[j].unwrap().1 == k[j] by {
    }
    lemme_occupees_egal_total(o, k);
}

/// Les entrées des triangles `reloges`, chacun pris à la classe que `k` lui donne.
pub open spec fn entrees_des(reloges: Seq<u32>, k: Seq<u32>) -> int
    decreases reloges.len(),
{
    if reloges.len() == 0 {
        0
    } else {
        entrees_des(reloges.drop_last(), k) + taille(k[reloges.last() as int])
    }
}

/// La seconde passe compte, pour chaque relogé, les entrées du bloc qu'il reçoit.
proof fn lemme_entrees_des_reloges(occ: Occupation, libres: Libres, s: int, k: Seq<u32>, t: nat)
    requires
        t <= k.len(),
        k.len() <= u32::MAX,
    ensures
        servir(occ, libres, s, k, t).4 == entrees_des(servir(occ, libres, s, k, t).3, k),
    decreases t,
{
    if t > 0 {
        lemme_entrees_des_reloges(occ, libres, s, k, (t - 1) as nat);
        let r = servir(occ, libres, s, k, (t - 1) as nat).3;
        assert(r.push((t - 1) as u32).drop_last() =~= r);
    }
}

/// Les entrées des blocs libres ne sont jamais négatives.
proof fn lemme_libres_positives(libres: Libres, c: nat)
    ensures
        entrees_libres_jusqu_a(libres, c) >= 0,
    decreases c,
{
    if c > 0 {
        lemme_libres_positives(libres, (c - 1) as nat);
        assert(libres[c - 1].len() * taille((c - 1) as u32) >= 0) by (nonlinear_arith)
            requires taille((c - 1) as u32) >= 0;
    }
}

/// ⭐ Un placement cohérent est bien formé — aucun bloc n'en recouvre un autre, tous tiennent sous
/// le sommet — et ne perd aucune entrée ; les entrées occupées ne dépassent donc jamais le sommet.
pub proof fn lemme_bien_forme_et_sans_perte(p: &Placement)
    requires
        p.wf(),
    ensures
        bien_forme(p.occupation(), p.piles_libres(), p.sommet_de_l_arene()),
        sans_perte(p.occupation(), p.piles_libres(), p.sommet_de_l_arene()),
        entrees_occupees(p.occupation()) <= p.sommet_de_l_arene(),
{
    lemme_libres_positives(p.piles_libres(), CLASSES as nat);
}

/// Ce que les deux passes garantissent d'un état cohérent, rassemblé pour la mise à jour.
proof fn lemme_ce_que_les_passes_garantissent(occ: Occupation, libres: Libres, s: int, k: Seq<u32>, budget: int)
    requires
        bien_forme(occ, libres, s),
        sans_perte(occ, libres, s),
        occ.len() == k.len(),
        classes_valides(k),
        apres_les_passes(occ, libres, s, k).2 <= u32::MAX,
    ensures
        ({
            let etat = apres_les_passes(occ, libres, s, k);
            &&& etat.0.len() == occ.len()
            &&& forall|t: int| 0 <= t < occ.len() ==> {
                &&& (#[trigger] etat.0[t]) is Some
                &&& etat.0[t].unwrap().1 == k[t]
                &&& etat.0[t].unwrap().0 + taille(k[t]) <= etat.2
            }
            &&& forall|t: int| 0 <= t < occ.len() && (#[trigger] occ[t]) is Some && occ[t].unwrap().1 == k[t]
                ==> etat.0[t] == occ[t]
            &&& etat.3 == a_reloger(occ, k, occ.len() as nat)
            &&& entrees_occupees(etat.0) == total_des_tailles(k)
            &&& entrees_occupees(etat.0) <= etat.2
            &&& !doit_compacter(occ, libres, s, k, budget) ==> (etat.2 * OCTETS_PAR_ENTREE <= budget
                || etat.2 == entrees_occupees(etat.0))
        }),
{
    let etat = apres_les_passes(occ, libres, s, k);
    lemme_chacun_dans_sa_classe(occ, libres, s, k);
    lemme_les_passes_ne_perdent_rien(occ, libres, s, k);
    lemme_l_empreinte_reste_bornee(occ, libres, s, k, budget);
    lemme_libres_positives(etat.1, CLASSES as nat);
    lemme_reloges_de_servir(occ, libres, s, k, occ.len() as nat);
    assert forall|t: int| 0 <= t < occ.len() implies etat.0[t].unwrap().0 + taille(k[t]) <= etat.2 by {
        assert(etat.0[t] is Some);
    }
    assert forall|t: int| 0 <= t < occ.len() && (#[trigger] occ[t]) is Some && occ[t].unwrap().1 == k[t]
        implies etat.0[t] == occ[t] by {
        lemme_une_adresse_ne_bouge_pas(occ, libres, s, k, t);
    }
}

/// ⭐ Deux triangles n'occupent jamais la même mémoire, et aucun bloc libre ne recouvre un bloc
/// occupé : c'est ce que tout placement cohérent garantit.
pub proof fn lemme_deux_triangles_n_occupent_jamais_la_meme_memoire(p: &Placement, t1: int, t2: int)
    requires
        p.wf(),
        0 <= t1 < p.occupation().len(),
        0 <= t2 < p.occupation().len(),
        t1 != t2,
        p.occupation()[t1].is_some(),
        p.occupation()[t2].is_some(),
    ensures
        disjoints(p.occupation()[t1].unwrap().0 as int, taille(p.occupation()[t1].unwrap().1),
            p.occupation()[t2].unwrap().0 as int, taille(p.occupation()[t2].unwrap().1)),
        p.occupation()[t1].unwrap().0 + taille(p.occupation()[t1].unwrap().1) <= p.sommet_de_l_arene(),
{
}

/// ⭐ Une arène remise à plat ne se remet pas à plat une seconde fois tant que les subdivisions
/// ne changent pas : rien n'y est rendu, rien n'y est servi, et l'empreinte y est exactement
/// l'empreinte utile.
pub proof fn lemme_aucun_acharnement(k: Seq<u32>, budget: int)
    requires
        classes_valides(k),
        k.len() <= u32::MAX,
        total_des_tailles(k) <= u32::MAX,
    ensures
        !doit_compacter(occupation_compacte(k), Seq::new(CLASSES as nat, |c: int| Seq::<u32>::empty()),
            total_des_tailles(k), k, budget),
        apres_les_passes(occupation_compacte(k), Seq::new(CLASSES as nat, |c: int| Seq::<u32>::empty()),
            total_des_tailles(k), k).0 == occupation_compacte(k),
        apres_les_passes(occupation_compacte(k), Seq::new(CLASSES as nat, |c: int| Seq::<u32>::empty()),
            total_des_tailles(k), k).2 == total_des_tailles(k),
{
    let o = occupation_compacte(k);
    let l = Seq::new(CLASSES as nat, |c: int| Seq::<u32>::empty());
    let s = total_des_tailles(k);
    lemme_compacte_bien_forme(k);
    lemme_rien_a_faire(o, l, s, k, k.len());
    assert forall|j: int| 0 <= j < o.len() implies (#[trigger] o[j]).is_some() && o[j].unwrap().1 == k[j] by {
    }
    lemme_occupees_egal_total(o, k);
}

/// Quand chaque triangle occupe déjà un bloc de sa classe, les deux passes ne changent rien.
proof fn lemme_rien_a_faire(o: Occupation, l: Libres, s: int, k: Seq<u32>, t: nat)
    requires
        t <= o.len(),
        o.len() == k.len(),
        forall|j: int| 0 <= j < o.len() ==> (#[trigger] o[j]).is_some() && o[j].unwrap().1 == k[j],
    ensures
        liberer(o, l, k, t) == (o, l),
        servir(o, l, s, k, t).0 == o,
        servir(o, l, s, k, t).1 == l,
        servir(o, l, s, k, t).2 == s,
    decreases t,
{
    if t > 0 {
        lemme_rien_a_faire(o, l, s, k, (t - 1) as nat);
    }
}

/// Les entrées d'un bloc, ou aucune.
pub open spec fn entrees_du_bloc(b: Option<(u32, u32)>) -> int {
    match b {
        Some((_, k)) => taille(k),
        None => 0,
    }
}

/// Les entrées des blocs libres des classes `0 .. c`.
pub open spec fn entrees_libres_jusqu_a(libres: Libres, c: nat) -> int
    decreases c,
{
    if c == 0 {
        0
    } else {
        entrees_libres_jusqu_a(libres, (c - 1) as nat) + libres[c - 1].len() * taille((c - 1) as u32)
    }
}

/// Les entrées de tous les blocs libres.
pub open spec fn entrees_libres(libres: Libres) -> int {
    entrees_libres_jusqu_a(libres, CLASSES as nat)
}

/// Aucune entrée de l'arène n'est perdue : les blocs occupés et les blocs libres en font
/// exactement le compte.
pub open spec fn sans_perte(occ: Occupation, libres: Libres, sommet: int) -> bool {
    entrees_occupees(occ) + entrees_libres(libres) == sommet
}

/// Changer un bloc change le compte des entrées occupées de la différence des deux.
proof fn lemme_occupees_apres_changement(o: Occupation, i: int, x: Option<(u32, u32)>)
    requires
        0 <= i < o.len(),
    ensures
        entrees_occupees(o.update(i, x)) == entrees_occupees(o) - entrees_du_bloc(o[i]) + entrees_du_bloc(x),
    decreases o.len(),
{
    let o2 = o.update(i, x);
    if i == o.len() - 1 {
        assert(o2.drop_last() =~= o.drop_last());
    } else {
        assert(o2.drop_last() =~= o.drop_last().update(i, x));
        lemme_occupees_apres_changement(o.drop_last(), i, x);
    }
}

/// Changer une pile change le compte des entrées libres de la différence de ses blocs.
proof fn lemme_libres_apres_changement(l: Libres, c: int, v: Seq<u32>, m: nat)
    requires
        l.len() == CLASSES,
        0 <= c < CLASSES,
        m <= CLASSES,
    ensures
        entrees_libres_jusqu_a(l.update(c, v), m) == entrees_libres_jusqu_a(l, m)
            + if c < m { (v.len() - l[c].len()) * taille(c as u32) } else { 0 },
    decreases m,
{
    if m > 0 {
        lemme_libres_apres_changement(l, c, v, (m - 1) as nat);
        if c == m - 1 {
            let t = taille(c as u32);
            let a = v.len() as int;
            let b = l[c].len() as int;
            assert(a * t - b * t == (a - b) * t) by (nonlinear_arith);
        }
    }
}

/// Un placement dont aucun triangle n'a de bloc ni aucune pile de bloc ne compte aucune entrée.
proof fn lemme_rien_n_est_compte(o: Occupation, l: Libres, m: nat)
    requires
        forall|t: int| 0 <= t < o.len() ==> (#[trigger] o[t]).is_none(),
        forall|c: int| 0 <= c < l.len() ==> (#[trigger] l[c]).len() == 0,
        m <= l.len(),
    ensures
        entrees_occupees(o) == 0,
        entrees_libres_jusqu_a(l, m) == 0,
    decreases o.len() + m,
{
    if o.len() > 0 {
        let o2 = o.drop_last();
        assert forall|t: int| 0 <= t < o2.len() implies (#[trigger] o2[t]).is_none() by {
            assert(o2[t] == o[t]);
        }
        lemme_rien_n_est_compte(o2, l, m);
        assert(o[o.len() - 1].is_none());
    } else if m > 0 {
        lemme_rien_n_est_compte(o, l, (m - 1) as nat);
        assert(l[m - 1].len() == 0);
    }
}

/// La première passe ne perd aucune entrée : chaque bloc rendu passe d'un compte à l'autre.
proof fn lemme_liberer_sans_perte(occ: Occupation, libres: Libres, s: int, k: Seq<u32>, t: nat)
    requires
        bien_forme(occ, libres, s),
        sans_perte(occ, libres, s),
        t <= occ.len(),
        occ.len() == k.len(),
    ensures
        sans_perte(liberer(occ, libres, k, t).0, liberer(occ, libres, k, t).1, s),
    decreases t,
{
    if t > 0 {
        lemme_liberer_sans_perte(occ, libres, s, k, (t - 1) as nat);
        lemme_liberer(occ, libres, s, k, (t - 1) as nat);
        let (o, l) = liberer(occ, libres, k, (t - 1) as nat);
        let i = t - 1;
        if o[i].is_some() && o[i].unwrap().1 != k[i] {
            let (b, a) = o[i].unwrap();
            assert(a <= K_MAX);
            lemme_occupees_apres_changement(o, i, None);
            lemme_libres_apres_changement(l, a as int, l[a as int].push(b), CLASSES as nat);
            let t = taille(a);
            let n = l[a as int].len() as int;
            assert((n + 1 - n) * t == t) by (nonlinear_arith);
            assert(l[a as int].push(b).len() == n + 1);
        }
    }
}

/// La seconde passe ne perd aucune entrée : un bloc repris quitte sa pile, un bloc neuf fait
/// monter le sommet de sa taille.
proof fn lemme_servir_sans_perte(occ: Occupation, libres: Libres, s: int, k: Seq<u32>, t: nat)
    requires
        bien_forme(occ, libres, s),
        sans_perte(occ, libres, s),
        t <= occ.len(),
        occ.len() == k.len(),
        classes_valides(k),
        servir(occ, libres, s, k, occ.len() as nat).2 <= u32::MAX,
    ensures
        sans_perte(servir(occ, libres, s, k, t).0, servir(occ, libres, s, k, t).1,
            servir(occ, libres, s, k, t).2),
    decreases t,
{
    if t > 0 {
        lemme_servir_sans_perte(occ, libres, s, k, (t - 1) as nat);
        lemme_servir(occ, libres, s, k, (t - 1) as nat);
        let (o, l, s1, r, e) = servir(occ, libres, s, k, (t - 1) as nat);
        let i = t - 1;
        let c = k[i as int];
        if o[i as int].is_none() {
            if l[c as int].len() > 0 {
                lemme_occupees_apres_changement(o, i as int, Some((l[c as int].last(), c)));
                lemme_libres_apres_changement(l, c as int, l[c as int].drop_last(), CLASSES as nat);
                let t = taille(c);
                let n = l[c as int].len() as int;
                assert((n - 1 - n) * t == -t) by (nonlinear_arith);
                assert(l[c as int].drop_last().len() == n - 1);
            } else {
                lemme_occupees_apres_changement(o, i as int, Some((s1 as u32, c)));
            }
        }
    }
}

/// ⭐ **Aucune entrée de l'arène n'est perdue** : après les deux passes, les blocs occupés et
/// les blocs libres font exactement le compte du sommet — un bloc rendu reste dans une pile pour
/// être repris, et l'arène ne grandit que d'un bloc neuf.
pub proof fn lemme_les_passes_ne_perdent_rien(occ: Occupation, libres: Libres, s: int, k: Seq<u32>)
    requires
        bien_forme(occ, libres, s),
        sans_perte(occ, libres, s),
        occ.len() == k.len(),
        classes_valides(k),
        apres_les_passes(occ, libres, s, k).2 <= u32::MAX,
    ensures
        sans_perte(apres_les_passes(occ, libres, s, k).0, apres_les_passes(occ, libres, s, k).1,
            apres_les_passes(occ, libres, s, k).2),
{
    lemme_liberer(occ, libres, s, k, occ.len() as nat);
    lemme_liberer_sans_perte(occ, libres, s, k, occ.len() as nat);
    let (o1, l1) = liberer(occ, libres, k, occ.len() as nat);
    lemme_servir_sans_perte(o1, l1, s, k, occ.len() as nat);
}

/// Une arène remise à plat ne perd aucune entrée.
proof fn lemme_compacte_sans_perte(k: Seq<u32>)
    requires
        classes_valides(k),
    ensures
        sans_perte(occupation_compacte(k), Seq::new(CLASSES as nat, |c: int| Seq::<u32>::empty()),
            total_des_tailles(k)),
{
    let o = occupation_compacte(k);
    let l = Seq::new(CLASSES as nat, |c: int| Seq::<u32>::empty());
    assert forall|j: int| 0 <= j < o.len() implies (#[trigger] o[j]).is_some() && o[j].unwrap().1 == k[j] by {
    }
    lemme_occupees_egal_total(o, k);
    lemme_rien_n_est_compte(Seq::<Option<(u32, u32)>>::empty(), l, CLASSES as nat);
}

/// ⭐ **Aucune entrée de l'arène n'est perdue** dans un placement cohérent : les blocs occupés
/// et les blocs libres, deux à deux disjoints et tous sous le sommet, en font exactement le
/// compte — ils la pavent sans trou. Un bloc rendu reste donc toujours disponible pour être repris,
/// et l'arène ne grandit jamais pour rien.
pub proof fn lemme_aucune_entree_n_est_perdue(p: &Placement)
    requires
        p.wf(),
    ensures
        entrees_occupees(p.occupation()) + entrees_libres(p.piles_libres()) == p.sommet_de_l_arene(),
{
}

/// La seconde passe ne fait monter le sommet que des blocs neufs qu'elle sert.
proof fn lemme_servir_borne(occ: Occupation, libres: Libres, s: int, k: Seq<u32>, t: nat)
    requires
        t <= occ.len(),
        occ.len() == k.len(),
        classes_valides(k),
    ensures
        servir(occ, libres, s, k, t).2 <= s + total_des_tailles(k.subrange(0, t as int)),
    decreases t,
{
    if t > 0 {
        lemme_servir_borne(occ, libres, s, k, (t - 1) as nat);
        assert(k.subrange(0, t as int).drop_last() =~= k.subrange(0, t - 1));
        lemme_taille_bornee(k[t - 1]);
    }
}

/// ⭐ **L'arène ne grandit que de ce que les triangles demandent** : après les deux passes, le
/// sommet dépasse l'ancien d'au plus le total des blocs voulus — au plus 33 153 entrées par
/// triangle.
pub proof fn lemme_borne_du_sommet(occ: Occupation, libres: Libres, s: int, k: Seq<u32>)
    requires
        occ.len() == k.len(),
        classes_valides(k),
    ensures
        apres_les_passes(occ, libres, s, k).2 <= s + total_des_tailles(k),
        total_des_tailles(k) <= k.len() * 33153,
{
    let (o1, l1) = liberer(occ, libres, k, k.len());
    lemme_longueur_liberee(occ, libres, k, k.len());
    lemme_servir_borne(o1, l1, s, k, k.len());
    assert(k.subrange(0, k.len() as int) =~= k);
    lemme_total_borne(k);
}

/// La première passe garde un bloc par triangle.
proof fn lemme_longueur_liberee(occ: Occupation, libres: Libres, k: Seq<u32>, t: nat)
    requires
        t <= occ.len(),
    ensures
        liberer(occ, libres, k, t).0.len() == occ.len(),
    decreases t,
{
    if t > 0 {
        lemme_longueur_liberee(occ, libres, k, (t - 1) as nat);
    }
}

} // verus!
