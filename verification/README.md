# caligrama

Escribe un texto dentro de la silueta de una imagen: la figura se separa del
fondo, se reduce a una rejilla de celdas y el texto se escribe, grafema a
grafema, en las celdas de figura. También anima el dibujo (el texto fluye y la
figura puede latir), lo exporta a SVG y analiza la silueta para diseñar el
texto de antemano.

## Organización

- `src/` es la biblioteca, escrita y demostrada con Verus:
  - `texto`: limpieza de espacios y reparto en grafemas.
  - `mascara`, `morfologia`: de los píxeles a la máscara de figura (fondo
    estimado en el borde, umbral, transparencia, cierre y relleno de huecos).
  - `rejilla`: de la máscara a las celdas, y el menor ancho en que cabe un
    texto.
  - `composicion`, `analisis`, `dibujo`: los fotogramas, su análisis y el
    informe; `completo`: sin repetir y con sitio, el texto entero aparece en
    orden.
  - `animacion`, `ansi`, `color_imagen`, `svg`, `reproduccion`: degradados
    y color ANSI, el color de la imagen en cada celda, el documento SVG y los
    pasos de la reproducción en la terminal.
  - `formato`, `lectura`, `cli`: mensajes, lectura de opciones y de la
    línea de órdenes.
- `tests/`: pruebas sobre valores concretos.
- `app/`: el módulo de Python y la línea de órdenes: lectura de archivos,
  muestreo de la máscara con la proporción de las celdas (en coma flotante),
  el umbral de Otsu, los degradados, las medidas del SVG y la reproducción en
  la terminal.
