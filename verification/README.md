# aegis_engine — les décisions du moteur de rendu, vérifiées

Cette bibliothèque porte ce que le moteur de rendu Aegis *décide*, séparé de ce qu'il *exécute* sur
la carte graphique. Les fonctions de `src/` sont écrites en Verus et prouvées contre leur contrat,
à l'exception de quatre enveloppes de la bibliothèque standard dont le contrat est admis sans
preuve : `std::str::from_utf8`, `str::split_whitespace` et `str::parse::<u32>` dans `ppm`,
`str::trim` dans `banc`. Chacune porte en commentaire ce que son contrat affirme.

- `surface` — l'adressage des micro-sommets d'un triangle subdivisé : une bijection entre
  coordonnées barycentriques entières et rangs.
- `allocation` — la subdivision de chaque triangle sous un budget d'octets, par un biais global.
- `placement` — l'arène des blocs de surface : une adresse ne bouge pas tant que la subdivision
  ne bouge pas, aucun bloc n'en recouvre un autre, aucune entrée n'est perdue, et le compactage
  ne mord que quand la fragmentation y est pour quelque chose.
- `file` — la file de dessin : regroupement stable par maillage, passe d'ombre, lots instanciés.
- `ombre` — les tirages de la passe d'ombre : un par lot de porteurs, réservé dans le tampon
  d'instances.
- `ecran` — le nombre et la taille des octaves du halo, et l'ordre de ses passes.
- `cibles`, `pipeline`, `instances`, `texture`, `occlusion` — les formats,
  échantillonnages, mélanges et agencements que les pipelines déclarent.
- `cadre`, `banc`, `oit`, `calcul`, `ppm` — les lumières d'une image, les interrupteurs de banc
  et le plafond d'échantillons lus dans l'environnement,
  les modes de transparence, le découpage d'une passe de calcul et la lecture d'un fichier PPM.

`app/` entoure la bibliothèque : les appels à Vulkan (par `ash`), l'environnement, les fichiers
et les calculs en virgule flottante.
