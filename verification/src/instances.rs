//! Les instances : la description de chaque objet voyage dans un tampon lu par instance.
//!
//! Une instance est une matrice et deux `vec4`, 96 octets. Ce module tient deux choses : où le
//! prochain lot d'instances s'écrit dans le tampon projeté — sans jamais en déborder — et
//! l'agencement que le pipeline déclare pour les lire.

use vstd::prelude::*;

verus! {

/// Le point de liaison des instances. Le maillage, lu par sommet, est au point 0.
pub const LIAISON_DES_INSTANCES: u32 = 1;

/// Le premier emplacement d'attribut des instances : les sommets occupent les emplacements 0 à 4.
pub const PREMIER_EMPLACEMENT: u32 = 5;

/// Les octets d'une instance : une matrice de 64 octets, une teinte et des paramètres de 16.
pub const OCTETS_PAR_INSTANCE: u32 = 96;

/// Le format Vulkan d'un attribut d'instance : quatre flottants de 32 bits.
pub const FORMAT_VEC4: i32 = 109;

/// Un attribut de sommet lu depuis le tampon d'instances.
#[derive(Clone, Copy, PartialEq, Eq, Debug, Structural)]
pub struct Attribut {
    pub binding: u32,
    pub location: u32,
    pub format: i32,
    pub offset: u32,
}

/// La façon dont le tampon d'instances est parcouru.
#[derive(Clone, Copy, PartialEq, Eq, Debug, Structural)]
pub struct Liaison {
    pub binding: u32,
    pub stride: u32,
    /// Lu une fois par instance, et non une fois par sommet.
    pub par_instance: bool,
}

/// L'attribut `i` : les quatre colonnes de la matrice, puis la teinte, puis les paramètres.
pub open spec fn attribut_attendu(i: int) -> Attribut {
    Attribut {
        binding: LIAISON_DES_INSTANCES,
        location: (PREMIER_EMPLACEMENT + i) as u32,
        format: FORMAT_VEC4,
        offset: (16 * i) as u32,
    }
}

/// Les six attributs d'instance, tels que le pipeline les déclare.
pub fn attributs() -> (r: Vec<Attribut>)
    ensures
        r@ == Seq::new(6, |i: int| attribut_attendu(i)),
{
    let mut r: Vec<Attribut> = Vec::new();
    let mut i: u32 = 0;
    while i < 6
        invariant
            i <= 6,
            r@ == Seq::new(i as nat, |j: int| attribut_attendu(j)),
        decreases 6 - i,
    {
        r.push(Attribut {
            binding: LIAISON_DES_INSTANCES,
            location: PREMIER_EMPLACEMENT + i,
            format: FORMAT_VEC4,
            offset: i * 16,
        });
        i = i + 1;
        proof {
            assert(r@ =~= Seq::new(i as nat, |j: int| attribut_attendu(j)));
        }
    }
    r
}

/// La liaison du tampon d'instances.
pub fn liaison() -> (l: Liaison)
    ensures
        l == (Liaison { binding: LIAISON_DES_INSTANCES, stride: OCTETS_PAR_INSTANCE, par_instance: true }),
{
    Liaison { binding: LIAISON_DES_INSTANCES, stride: OCTETS_PAR_INSTANCE, par_instance: true }
}

/// ⭐ Les attributs d'instance ne recouvrent aucun emplacement de sommet ni ne se recouvrent entre
/// eux, vivent tous au point de liaison des instances, et leurs octets se suivent sans trou ni
/// recouvrement pour remplir exactement une instance.
pub proof fn lemme_agencement_des_instances()
    ensures
        forall|i: int| 0 <= i < 6 ==> (#[trigger] attribut_attendu(i)).location >= PREMIER_EMPLACEMENT
            && attribut_attendu(i).binding == LIAISON_DES_INSTANCES,
        forall|i: int, j: int| 0 <= i < j < 6 ==> (#[trigger] attribut_attendu(i)).location
            != (#[trigger] attribut_attendu(j)).location,
        forall|i: int| 0 <= i < 5 ==> (#[trigger] attribut_attendu(i)).offset + 16
            == attribut_attendu(i + 1).offset,
        attribut_attendu(0).offset == 0,
        attribut_attendu(5).offset + 16 == OCTETS_PAR_INSTANCE,
{
}

/// Où le prochain lot d'instances s'écrit, dans un tampon de capacité fixe.
pub struct Emplacements {
    capacite: usize,
    curseur: usize,
    perdues: usize,
}

impl Emplacements {
    /// Combien d'instances le tampon peut porter.
    pub closed spec fn capacite_totale(&self) -> nat {
        self.capacite as nat
    }

    /// Combien d'instances ont déjà été déposées depuis le début de l'image.
    pub closed spec fn deja_deposees(&self) -> nat {
        self.curseur as nat
    }

    /// Combien d'instances ont été refusées faute de place depuis le début de l'image.
    pub closed spec fn refusees(&self) -> nat {
        self.perdues as nat
    }

    /// Le curseur ne dépasse jamais la capacité.
    pub closed spec fn wf(&self) -> bool {
        self.curseur <= self.capacite
    }

    /// Un tampon vide de `capacite` instances.
    pub fn nouveau(capacite: usize) -> (e: Self)
        ensures
            e.wf(),
            e.capacite_totale() == capacite,
            e.deja_deposees() == 0,
            e.refusees() == 0,
    {
        Emplacements { capacite, curseur: 0, perdues: 0 }
    }

    /// Repart du début du tampon pour une nouvelle image, et rend le nombre d'instances refusées
    /// à l'image qui s'achève, pour que l'appelant le dise.
    pub fn recommencer(&mut self) -> (perdues: usize)
        ensures
            perdues == old(self).refusees(),
            final(self).wf(),
            final(self).capacite_totale() == old(self).capacite_totale(),
            final(self).deja_deposees() == 0,
            final(self).refusees() == 0,
    {
        let perdues = self.perdues;
        self.perdues = 0;
        self.curseur = 0;
        perdues
    }

    /// Réserve la place d'un lot de `lot` instances, et rend l'indice de la première — ou rien si
    /// le lot ne tient pas, auquel cas il est compté parmi les refusées. **Jamais une écriture hors
    /// du tampon.**
    pub fn poser(&mut self, lot: usize) -> (r: Option<u32>)
        requires
            old(self).wf(),
            old(self).refusees() + lot <= usize::MAX,
        ensures
            final(self).wf(),
            final(self).capacite_totale() == old(self).capacite_totale(),
            old(self).deja_deposees() + lot > old(self).capacite_totale() ==> {
                &&& r is None
                &&& final(self).deja_deposees() == old(self).deja_deposees()
                &&& final(self).refusees() == old(self).refusees() + lot
            },
            old(self).deja_deposees() + lot <= old(self).capacite_totale() ==> {
                &&& r == Some(old(self).deja_deposees() as u32)
                &&& final(self).deja_deposees() == old(self).deja_deposees() + lot
                &&& final(self).refusees() == old(self).refusees()
            },
    {
        let debut = self.curseur;
        if lot > self.capacite - debut {
            self.perdues = self.perdues + lot;
            return None;
        }
        self.curseur = debut + lot;
        Some(debut as u32)
    }

    /// Combien d'instances ont été déposées depuis le début de l'image.
    pub fn deposees(&self) -> (r: usize)
        ensures
            r == self.deja_deposees(),
    {
        self.curseur
    }

    /// Combien d'instances ont été refusées faute de place depuis le début de l'image.
    pub fn perdues(&self) -> (r: usize)
        ensures
            r == self.refusees(),
    {
        self.perdues
    }

    /// Combien d'instances le tampon peut porter.
    pub fn capacite(&self) -> (r: usize)
        ensures
            r == self.capacite_totale(),
    {
        self.capacite
    }
}

} // verus!
