//! La file de rendu : ce qu'il y a à dessiner dans l'image en cours, décrit plutôt que dessiné.
//!
//! Le jeu dit *quoi* dessiner ; le moteur décide *comment* et *combien de fois* — une fois pour
//! l'écran, une fois par lumière qui porte une ombre. Le tri par maillage n'est valide que pour
//! l'opaque, où le test de profondeur décide seul du résultat.
//!
//! La matrice et les couleurs d'un dessin ne sont jamais lues ici : la file les porte telles
//! quelles, sous les types que l'appelant choisit (`M` pour la matrice, `C` pour une couleur).

use vstd::prelude::*;

verus! {

/// Un objet à dessiner : quel maillage, où, de quelle couleur.
#[derive(Clone, Copy, Debug, PartialEq)]
pub struct Dessin<M, C> {
    /// Quel maillage, dans la table que l'appelant tient.
    pub maillage: u16,
    pub modele: M,
    pub teinte: C,
    pub params: C,
    /// Si cet objet doit apparaître dans la passe d'ombre.
    pub porte_une_ombre: bool,
}

/// Ce qu'il y a à dessiner dans l'image en cours.
pub struct File<M, C> {
    /// Les dessins, dans l'ordre où ils seront parcourus.
    pub dessins: Vec<Dessin<M, C>>,
}

/// Le filtre des dessins qui portent une ombre.
pub open spec fn ombrants<M, C>() -> spec_fn(Dessin<M, C>) -> bool {
    |d: Dessin<M, C>| d.porte_une_ombre
}

/// Le filtre des dessins d'un maillage donné.
pub open spec fn du_maillage<M, C>(m: u16) -> spec_fn(Dessin<M, C>) -> bool {
    |d: Dessin<M, C>| d.maillage == m
}

/// Les dessins sont rangés par maillage croissant.
pub open spec fn par_maillage<M, C>(s: Seq<Dessin<M, C>>) -> bool {
    forall|i: int, j: int| 0 <= i < j < s.len() ==> s[i].maillage <= s[j].maillage
}

/// Combien de fois on change de maillage en parcourant `s` dans l'ordre : le premier dessin en
/// compte un, puis chaque dessin dont le maillage diffère de celui d'avant.
pub open spec fn changements<M, C>(s: Seq<Dessin<M, C>>) -> nat
    decreases s.len(),
{
    if s.len() == 0 {
        0
    } else {
        let avant = s.drop_last();
        changements(avant) + if avant.len() == 0 || avant.last().maillage != s.last().maillage {
            1nat
        } else {
            0nat
        }
    }
}

/// Les maillages distincts que `s` utilise.
pub open spec fn maillages<M, C>(s: Seq<Dessin<M, C>>) -> Set<u16>
    decreases s.len(),
{
    if s.len() == 0 {
        Set::empty()
    } else {
        maillages(s.drop_last()).insert(s.last().maillage)
    }
}

/// Les indices `0 .. t` des dessins dont le maillage est dans une table de `n` maillages.
pub open spec fn retenus<M, C>(s: Seq<Dessin<M, C>>, n: int, t: nat) -> Seq<usize>
    decreases t,
{
    if t == 0 {
        Seq::empty()
    } else {
        let avant = retenus(s, n, (t - 1) as nat);
        if (s[t - 1].maillage as int) < n { avant.push((t - 1) as usize) } else { avant }
    }
}

impl<M, C> View for File<M, C> {
    type V = Seq<Dessin<M, C>>;

    open spec fn view(&self) -> Seq<Dessin<M, C>> {
        self.dessins@
    }
}

impl<M: Copy, C: Copy> File<M, C> {
    /// Une file vide.
    pub fn nouvelle() -> (f: Self)
        ensures
            f@ == Seq::<Dessin<M, C>>::empty(),
    {
        File { dessins: Vec::new() }
    }

    /// Ajoute un dessin en fin de file.
    pub fn ajouter(&mut self, dessin: Dessin<M, C>)
        ensures
            final(self)@ == old(self)@.push(dessin),
    {
        self.dessins.push(dessin);
    }

    /// Repart d'une file vide pour l'image suivante, en gardant la mémoire déjà allouée.
    pub fn vider(&mut self)
        ensures
            final(self)@ == Seq::<Dessin<M, C>>::empty(),
    {
        self.dessins.clear();
    }

    /// Les dessins, dans l'ordre courant.
    pub fn dessins(&self) -> (r: &[Dessin<M, C>])
        ensures
            r@ == self@,
    {
        self.dessins.as_slice()
    }

    /// La file est-elle vide ?
    pub fn est_vide(&self) -> (r: bool)
        ensures
            r == (self@.len() == 0),
    {
        self.dessins.len() == 0
    }

    /// Ce qui doit apparaître dans une passe d'ombre, dans l'ordre de la file.
    pub fn porteurs_d_ombre(&self) -> (r: Vec<Dessin<M, C>>)
        ensures
            r@ == self@.filter(ombrants()),
    {
        let mut r: Vec<Dessin<M, C>> = Vec::new();
        let mut i: usize = 0;
        while i < self.dessins.len()
            invariant
                i <= self@.len(),
                r@ == self@.subrange(0, i as int).filter(ombrants()),
            decreases self@.len() - i,
        {
            let d = self.dessins[i];
            proof {
                assert(self@.subrange(0, i as int + 1) =~= self@.subrange(0, i as int).push(d));
                self@.subrange(0, i as int).lemma_filter_push(d, ombrants());
            }
            if d.porte_une_ombre {
                r.push(d);
            }
            i = i + 1;
        }
        proof {
            assert(self@.subrange(0, i as int) =~= self@);
        }
        r
    }

    /// Regroupe les dessins par maillage, pour ne lier chaque tampon qu'une fois.
    ///
    /// Le tri est **stable** : deux dessins du même maillage gardent leur ordre d'ajout, ce qui
    /// rend le rendu reproductible d'une exécution à l'autre.
    pub fn regrouper(&mut self)
        ensures
            par_maillage(final(self)@),
            forall|m: u16| #[trigger] final(self)@.filter(du_maillage(m))
                == old(self)@.filter(du_maillage(m)),
            final(self)@.len() == old(self)@.len(),
            final(self)@.to_multiset() == old(self)@.to_multiset(),
    {
        let ghost depart = self@;
        let mut range: Vec<Dessin<M, C>> = Vec::new();
        let mut i: usize = 0;
        proof {
            broadcast use vstd::seq_lib::group_to_multiset_ensures;
            assert(depart.subrange(0, 0) =~= range@);
        }
        while i < self.dessins.len()
            invariant
                self@ == depart,
                i <= depart.len(),
                range@.len() == i,
                par_maillage(range@),
                forall|m: u16| #[trigger] range@.filter(du_maillage(m))
                    == depart.subrange(0, i as int).filter(du_maillage(m)),
                range@.to_multiset() == depart.subrange(0, i as int).to_multiset(),
            decreases depart.len() - i,
        {
            let d = self.dessins[i];
            let mut p = range.len();
            while p > 0 && range[p - 1].maillage > d.maillage
                invariant
                    p <= range@.len(),
                    forall|j: int| p <= j < range@.len() ==> range@[j].maillage > d.maillage,
                decreases p,
            {
                p = p - 1;
            }
            let ghost avant = range@;
            proof {
                lemme_insertion_stable(avant, p as int, d);
                assert(depart.subrange(0, i as int + 1) =~= depart.subrange(0, i as int).push(d));
                vstd::seq_lib::to_multiset_build(depart.subrange(0, i as int), d);
                vstd::seq_lib::to_multiset_insert(avant, p as int, d);
                assert forall|m: u16| #[trigger] avant.push(d).filter(du_maillage(m))
                    == depart.subrange(0, i as int + 1).filter(du_maillage(m)) by {
                    avant.lemma_filter_push(d, du_maillage(m));
                    depart.subrange(0, i as int).lemma_filter_push(d, du_maillage(m));
                }
            }
            range.insert(p, d);
            i = i + 1;
        }
        proof {
            assert(depart.subrange(0, i as int) =~= depart);
        }
        self.dessins = range;
    }

    /// Combien de fois il faudra changer de maillage en parcourant la file dans l'ordre.
    pub fn changements_de_maillage(&self) -> (r: usize)
        ensures
            r == changements(self@),
    {
        let mut compte: usize = 0;
        let mut precedent: Option<u16> = None;
        let mut i: usize = 0;
        while i < self.dessins.len()
            invariant
                i <= self@.len(),
                compte == changements(self@.subrange(0, i as int)),
                compte <= i,
                precedent == (if i == 0 { None } else { Some(self@[i - 1].maillage) }),
            decreases self@.len() - i,
        {
            let m = self.dessins[i].maillage;
            proof {
                let pre = self@.subrange(0, i as int + 1);
                assert(pre.drop_last() =~= self@.subrange(0, i as int));
            }
            if precedent != Some(m) {
                compte = compte + 1;
                precedent = Some(m);
            }
            i = i + 1;
        }
        proof {
            assert(self@.subrange(0, i as int) =~= self@);
        }
        compte
    }

    /// Ce qu'un parcours de la file fera avec une table de `nombre_de_maillages` maillages : les
    /// indices des dessins à émettre, dans l'ordre, et le nombre de dessins ignorés parce que leur
    /// maillage est hors table.
    pub fn a_dessiner(&self, nombre_de_maillages: usize) -> (r: (Vec<usize>, usize))
        ensures
            r.0@ == retenus(self@, nombre_de_maillages as int, self@.len()),
            r.1 == self@.len() - r.0@.len(),
    {
        let mut indices: Vec<usize> = Vec::new();
        let mut ignores: usize = 0;
        let mut i: usize = 0;
        while i < self.dessins.len()
            invariant
                i <= self@.len(),
                indices@ == retenus(self@, nombre_de_maillages as int, i as nat),
                indices@.len() + ignores == i,
            decreases self@.len() - i,
        {
            if (self.dessins[i].maillage as usize) < nombre_de_maillages {
                indices.push(i);
            } else {
                ignores = ignores + 1;
            }
            i = i + 1;
        }
        (indices, ignores)
    }
}

/// Insérer `d` après tous les dessins de maillage inférieur ou égal garde la suite rangée, et
/// chaque maillage y voit ses dessins dans le même ordre que si `d` avait été ajouté à la fin.
proof fn lemme_insertion_stable<M, C>(s: Seq<Dessin<M, C>>, p: int, d: Dessin<M, C>)
    requires
        par_maillage(s),
        0 <= p <= s.len(),
        forall|j: int| 0 <= j < p ==> s[j].maillage <= d.maillage,
        forall|j: int| p <= j < s.len() ==> s[j].maillage > d.maillage,
    ensures
        par_maillage(s.insert(p, d)),
        forall|m: u16| #[trigger] s.insert(p, d).filter(du_maillage(m)) == s.push(d).filter(du_maillage(m)),
{
    let avant = s.subrange(0, p);
    let apres = s.subrange(p, s.len() as int);
    let seul = seq![d];
    assert(s.insert(p, d) =~= avant + seul + apres);
    assert(s.push(d) =~= avant + apres + seul);
    assert(s =~= avant + apres);
    let r = s.insert(p, d);
    assert forall|i: int, j: int| 0 <= i < j < r.len() implies r[i].maillage <= r[j].maillage by {
        if j < p {
        } else if j == p {
            if i < p {
            }
        } else if i < p {
            assert(s[i].maillage <= s[j - 1].maillage);
        } else if i == p {
            assert(s[j - 1].maillage > d.maillage);
        } else {
            assert(s[i - 1].maillage <= s[j - 1].maillage);
        }
    }
    assert forall|m: u16| #[trigger] s.insert(p, d).filter(du_maillage(m))
        == s.push(d).filter(du_maillage(m)) by {
        let f = du_maillage::<M, C>(m);
        Seq::filter_distributes_over_add(avant + seul, apres, f);
        Seq::filter_distributes_over_add(avant, seul, f);
        Seq::filter_distributes_over_add(avant + apres, seul, f);
        Seq::filter_distributes_over_add(avant, apres, f);
        let vide = Seq::<Dessin<M, C>>::empty();
        vide.lemma_filter_len(f);
        assert(vide.filter(f) =~= vide);
        assert(seul =~= vide.push(d));
        vide.lemma_filter_push(d, f);
        if d.maillage == m {
            assert forall|j: int| 0 <= j < apres.len() implies !f(#[trigger] apres[j]) by {
                assert(apres[j] == s[p + j]);
            }
            apres.lemma_all_neg_filter_empty(f);
            assert(apres.filter(f) =~= Seq::<Dessin<M, C>>::empty());
            assert(avant.filter(f) + seul.filter(f) + apres.filter(f)
                =~= avant.filter(f) + apres.filter(f) + seul.filter(f));
        } else {
            assert(seul.filter(f) =~= Seq::<Dessin<M, C>>::empty());
            assert(avant.filter(f) + seul.filter(f) + apres.filter(f)
                =~= avant.filter(f) + apres.filter(f) + seul.filter(f));
        }
    }
}

/// Les maillages distincts d'une suite forment un ensemble fini, fait des maillages de ses dessins.
pub proof fn lemme_maillages<M, C>(s: Seq<Dessin<M, C>>)
    ensures
        maillages(s).finite(),
        forall|m: u16| #[trigger] maillages(s).contains(m)
            <==> exists|i: int| 0 <= i < s.len() && s[i].maillage == m,
    decreases s.len(),
{
    if s.len() > 0 {
        let t = s.drop_last();
        lemme_maillages(t);
        assert forall|m: u16| #[trigger] maillages(s).contains(m)
            <==> exists|i: int| 0 <= i < s.len() && s[i].maillage == m by {
            if maillages(s).contains(m) {
                if m == s.last().maillage {
                    assert(s[s.len() - 1].maillage == m);
                } else {
                    let i = choose|i: int| 0 <= i < t.len() && t[i].maillage == m;
                    assert(s[i] == t[i]);
                }
            }
            if exists|i: int| 0 <= i < s.len() && s[i].maillage == m {
                let i = choose|i: int| 0 <= i < s.len() && s[i].maillage == m;
                if i < t.len() {
                    assert(t[i] == s[i]);
                }
            }
        }
    }
}

/// Parcourir une suite coûte au moins un changement par maillage distinct.
proof fn lemme_au_moins_un_par_maillage<M, C>(s: Seq<Dessin<M, C>>)
    ensures
        maillages(s).len() <= changements(s),
    decreases s.len(),
{
    if s.len() > 0 {
        let t = s.drop_last();
        lemme_au_moins_un_par_maillage(t);
        lemme_maillages(t);
        if !maillages(t).contains(s.last().maillage) && t.len() > 0 {
            assert(t[t.len() - 1].maillage != s.last().maillage);
        }
    }
}

/// Une suite rangée par maillage ne coûte qu'un changement par maillage distinct.
proof fn lemme_un_par_maillage_si_range<M, C>(s: Seq<Dessin<M, C>>)
    requires
        par_maillage(s),
    ensures
        maillages(s).len() == changements(s),
    decreases s.len(),
{
    if s.len() > 0 {
        let t = s.drop_last();
        assert(par_maillage(t)) by {
            assert forall|i: int, j: int| 0 <= i < j < t.len() implies t[i].maillage <= t[j].maillage by {
                assert(t[i] == s[i] && t[j] == s[j]);
            }
        }
        lemme_un_par_maillage_si_range(t);
        lemme_maillages(t);
        if t.len() > 0 {
            if t.last().maillage == s.last().maillage {
                assert(t[t.len() - 1].maillage == s.last().maillage);
            } else {
                assert forall|i: int| 0 <= i < t.len() implies t[i].maillage != s.last().maillage by {
                    assert(t[i] == s[i]);
                    assert(s[i].maillage <= s[t.len() - 1].maillage);
                    assert(s[t.len() - 1].maillage <= s[s.len() - 1].maillage);
                }
            }
        }
    }
}

/// Deux suites qui ont, maillage par maillage, les mêmes dessins utilisent les mêmes maillages.
proof fn lemme_memes_maillages<M, C>(a: Seq<Dessin<M, C>>, b: Seq<Dessin<M, C>>)
    requires
        forall|m: u16| #[trigger] a.filter(du_maillage(m)) == b.filter(du_maillage(m)),
    ensures
        maillages(a) == maillages(b),
{
    lemme_maillages(a);
    lemme_maillages(b);
    assert forall|m: u16| #[trigger] maillages(a).contains(m) implies maillages(b).contains(m) by {
        lemme_present_si_filtre(a, m);
        lemme_present_si_filtre(b, m);
        assert(a.filter(du_maillage(m)) == b.filter(du_maillage(m)));
    }
    assert forall|m: u16| #[trigger] maillages(b).contains(m) implies maillages(a).contains(m) by {
        lemme_present_si_filtre(a, m);
        lemme_present_si_filtre(b, m);
        assert(a.filter(du_maillage(m)) == b.filter(du_maillage(m)));
    }
    assert(maillages(a) =~= maillages(b));
}

/// Un maillage est utilisé si et seulement si son filtre n'est pas vide.
proof fn lemme_present_si_filtre<M, C>(s: Seq<Dessin<M, C>>, m: u16)
    ensures
        (exists|i: int| 0 <= i < s.len() && s[i].maillage == m) <==> s.filter(du_maillage(m)).len() > 0,
{
    let f = du_maillage::<M, C>(m);
    if exists|i: int| 0 <= i < s.len() && s[i].maillage == m {
        let i = choose|i: int| 0 <= i < s.len() && s[i].maillage == m;
        s.lemma_filter_contains(f, i);
    } else {
        assert forall|j: int| 0 <= j < s.len() implies !f(#[trigger] s[j]) by {}
        s.lemma_all_neg_filter_empty(f);
    }
}

/// ⭐ **Regrouper ne laisse qu'un changement par maillage distinct**, et ne coûte jamais plus de
/// changements que l'ordre d'origine.
pub proof fn lemme_regrouper_est_optimal<M, C>(avant: Seq<Dessin<M, C>>, apres: Seq<Dessin<M, C>>)
    requires
        par_maillage(apres),
        forall|m: u16| #[trigger] apres.filter(du_maillage(m)) == avant.filter(du_maillage(m)),
    ensures
        changements(apres) == maillages(avant).len(),
        changements(apres) <= changements(avant),
{
    lemme_memes_maillages(apres, avant);
    lemme_un_par_maillage_si_range(apres);
    lemme_au_moins_un_par_maillage(avant);
}

/// Une suite de dessins consécutifs du même maillage, que l'on émet d'un seul appel instancié.
#[derive(Clone, Copy, Debug, PartialEq, Eq, Structural)]
pub struct Lot {
    pub maillage: u16,
    /// L'indice du premier dessin du lot.
    pub debut: usize,
    /// Combien de dessins le lot porte.
    pub nombre: usize,
}

/// Les lots d'une suite de dessins : chaque suite maximale de dessins consécutifs du même maillage.
pub open spec fn lots_de<M, C>(s: Seq<Dessin<M, C>>) -> Seq<Lot>
    decreases s.len(),
{
    if s.len() == 0 {
        Seq::empty()
    } else {
        let avant = lots_de(s.drop_last());
        let m = s.last().maillage;
        if avant.len() > 0 && avant.last().maillage == m {
            avant.update(avant.len() - 1, Lot { nombre: (avant.last().nombre + 1) as usize, ..avant.last() })
        } else {
            avant.push(Lot { maillage: m, debut: (s.len() - 1) as usize, nombre: 1 })
        }
    }
}

/// Les lots découpent `s` : ils se suivent sans trou depuis le début, aucun n'est vide, chacun ne
/// porte que des dessins de son maillage, et deux lots voisins ont des maillages différents.
pub open spec fn decoupe<M, C>(s: Seq<Dessin<M, C>>, lots: Seq<Lot>) -> bool {
    &&& s.len() == 0 <==> lots.len() == 0
    &&& lots.len() > 0 ==> lots[0].debut == 0 && lots.last().debut + lots.last().nombre == s.len()
    &&& forall|i: int| 0 <= i < lots.len() ==> (#[trigger] lots[i]).nombre > 0
    &&& forall|i: int| 0 <= i < lots.len() - 1 ==> (#[trigger] lots[i]).debut + lots[i].nombre
        == lots[i + 1].debut && lots[i].maillage != lots[i + 1].maillage
    &&& forall|i: int, j: int| 0 <= i < lots.len() && lots[i].debut <= j < lots[i].debut + lots[i].nombre
        ==> (#[trigger] s[j]).maillage == (#[trigger] lots[i]).maillage
}

/// ⭐ Les lots découpent la suite en suites maximales du même maillage, et il y en a exactement
/// autant que de changements de maillage : regrouper la file, c'est réduire le nombre d'appels.
pub proof fn lemme_les_lots_decoupent_la_suite<M, C>(s: Seq<Dessin<M, C>>)
    requires
        s.len() <= usize::MAX,
    ensures
        decoupe(s, lots_de(s)),
        lots_de(s).len() == changements(s),
    decreases s.len(),
{
    if s.len() > 0 {
        let t = s.drop_last();
        let d = s.last();
        lemme_les_lots_decoupent_la_suite(t);
        assert(t.push(d) =~= s);
        let avant = lots_de(t);
        if avant.len() > 0 {
            lemme_dernier_dans_le_dernier_lot(t, avant);
        }
        if avant.len() > 0 && avant.last().maillage == d.maillage {
            lemme_allonger_le_dernier_lot(t, avant, d);
        } else {
            lemme_ouvrir_un_lot(t, avant, d);
        }
    }
}

/// Le dernier dessin d'une suite découpée appartient au dernier lot.
proof fn lemme_dernier_dans_le_dernier_lot<M, C>(t: Seq<Dessin<M, C>>, lots: Seq<Lot>)
    requires
        decoupe(t, lots),
        lots.len() > 0,
    ensures
        t[t.len() - 1].maillage == lots.last().maillage,
{
    let k = lots.len() - 1;
    assert(lots[k].debut <= t.len() - 1 < lots[k].debut + lots[k].nombre);
    assert(t[t.len() - 1].maillage == lots[k].maillage);
}

/// Un dessin du même maillage que le dernier lot l'allonge.
proof fn lemme_allonger_le_dernier_lot<M, C>(t: Seq<Dessin<M, C>>, avant: Seq<Lot>, d: Dessin<M, C>)
    requires
        decoupe(t, avant),
        t.len() < usize::MAX,
        avant.len() > 0,
        avant.last().maillage == d.maillage,
    ensures
        decoupe(t.push(d), avant.update(avant.len() - 1,
            Lot { nombre: (avant.last().nombre + 1) as usize, ..avant.last() })),
{
    let s = t.push(d);
    let k = avant.len() - 1;
    let l = avant.update(k, Lot { nombre: (avant.last().nombre + 1) as usize, ..avant.last() });
    lemme_lots_croissants(t, avant, k);
    assert(l[k].nombre == avant[k].nombre + 1);
    assert forall|i: int| 0 <= i < l.len() implies (#[trigger] l[i]).nombre > 0 by {
        if i < k {
            assert(l[i] == avant[i]);
        }
    }
    assert forall|i: int| 0 <= i < l.len() - 1 implies (#[trigger] l[i]).debut + l[i].nombre
        == l[i + 1].debut && l[i].maillage != l[i + 1].maillage by {
        assert(l[i] == avant[i]);
        if i + 1 < k {
            assert(l[i + 1] == avant[i + 1]);
        }
    }
    assert forall|i: int, j: int| 0 <= i < l.len() && l[i].debut <= j < l[i].debut + l[i].nombre
        implies (#[trigger] s[j]).maillage == (#[trigger] l[i]).maillage by {
        if i < k {
            assert(l[i] == avant[i]);
            lemme_lots_croissants(t, avant, i);
            assert(s[j] == t[j]);
        } else if j < t.len() {
            assert(s[j] == t[j]);
            assert(avant[k].debut <= j < avant[k].debut + avant[k].nombre);
        }
    }
}

/// Un dessin d'un autre maillage que le dernier lot en ouvre un nouveau.
proof fn lemme_ouvrir_un_lot<M, C>(t: Seq<Dessin<M, C>>, avant: Seq<Lot>, d: Dessin<M, C>)
    requires
        decoupe(t, avant),
        t.len() < usize::MAX,
        avant.len() > 0 ==> avant.last().maillage != d.maillage,
    ensures
        decoupe(t.push(d), avant.push(Lot { maillage: d.maillage, debut: t.len() as usize, nombre: 1 })),
{
    let s = t.push(d);
    let k = avant.len();
    let l = avant.push(Lot { maillage: d.maillage, debut: t.len() as usize, nombre: 1 });
    assert(l[k as int].debut == t.len());
    assert forall|i: int| 0 <= i < l.len() implies (#[trigger] l[i]).nombre > 0 by {
        if i < k {
            assert(l[i] == avant[i]);
        }
    }
    assert forall|i: int| 0 <= i < l.len() - 1 implies (#[trigger] l[i]).debut + l[i].nombre
        == l[i + 1].debut && l[i].maillage != l[i + 1].maillage by {
        assert(l[i] == avant[i]);
        if i + 1 < k {
            assert(l[i + 1] == avant[i + 1]);
        }
    }
    assert forall|i: int, j: int| 0 <= i < l.len() && l[i].debut <= j < l[i].debut + l[i].nombre
        implies (#[trigger] s[j]).maillage == (#[trigger] l[i]).maillage by {
        if i < k {
            assert(l[i] == avant[i]);
            lemme_lots_croissants(t, avant, i);
            assert(s[j] == t[j]);
        }
    }
}

/// Dans un découpage, chaque lot finit au plus tard à la fin de la suite.
pub(crate) proof fn lemme_lots_croissants<M, C>(s: Seq<Dessin<M, C>>, lots: Seq<Lot>, i: int)
    requires
        decoupe(s, lots),
        0 <= i < lots.len(),
    ensures
        lots[i].debut + lots[i].nombre <= s.len(),
    decreases lots.len() - i,
{
    if i < lots.len() - 1 {
        lemme_lots_croissants(s, lots, i + 1);
        assert(lots[i].debut + lots[i].nombre == lots[i + 1].debut);
    }
}

/// Découpe une suite de dessins en lots : chaque suite maximale de dessins consécutifs du même
/// maillage, pour l'émettre d'un seul appel instancié.
pub fn lots<M: Copy, C: Copy>(dessins: &[Dessin<M, C>]) -> (r: Vec<Lot>)
    ensures
        r@ == lots_de(dessins@),
{
    let mut r: Vec<Lot> = Vec::new();
    let mut i: usize = 0;
    while i < dessins.len()
        invariant
            i <= dessins@.len(),
            r@ == lots_de(dessins@.subrange(0, i as int)),
            r@.len() <= i,
            forall|k: int| 0 <= k < r@.len() ==> (#[trigger] r@[k]).nombre <= i,
        decreases dessins@.len() - i,
    {
        let m = dessins[i].maillage;
        proof {
            let pre = dessins@.subrange(0, i as int + 1);
            assert(pre.drop_last() =~= dessins@.subrange(0, i as int));
        }
        let n = r.len();
        if n > 0 && r[n - 1].maillage == m {
            let dernier = r[n - 1];
            r.set(n - 1, Lot { nombre: dernier.nombre + 1, ..dernier });
        } else {
            r.push(Lot { maillage: m, debut: i, nombre: 1 });
        }
        i = i + 1;
        proof {
            assert(r@ =~= lots_de(dessins@.subrange(0, i as int)));
        }
    }
    proof {
        assert(dessins@.subrange(0, i as int) =~= dessins@);
    }
    r
}

} // verus!
