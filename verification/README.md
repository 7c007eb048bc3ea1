# alchemy

Substances that carry quantities of *intent*, and the rules by which those
intents react inside a substance, flow between substances that touch, and
split off with fragments of matter. The rules drive a small plant simulation:
a stem grows a leaf from the air it absorbs, and tends that leaf each tick.

Layout:

- `src/intent.rs`: the kinds of intent and of interaction.
- `src/model.rs`: the mathematical model of a substance (its mass and a map
  from intent to quantity) and, as spec functions over it, what every rule
  does, including where a rule refuses its input.
- `src/alchemy.rs`: `IntentTable` (quantities keyed by intent), `Substance`
  and the verified rules: soft-capped addition, subtraction, pushing and
  balancing intent, internal reactions, fragmenting, merging and contact
  interactions.
- `src/plant.rs`: the verified tick of a plant's stem: it reacts, then tends
  its leaf, forgets a leaf that is gone, or sprouts a new one.
- `src/laws.rs`: properties proved of the rules: the soft cap reaches the
  largest quantity the amount pays for, is monotone, never gains from
  splitting and costs more the higher it climbs; conservation of mass and
  intent; a fragment merged back restores its substance; how a stem decides.
- `app/main.rs`: the game around the library (scene, camera, picking, timers),
  built on bevy. The stem system calls no `pin` on the global air: no such
  operation exists on a substance, so the air is simply drawn down as leaves
  absorb it.
